//! The text of a plan: an indented tree, one operator per line, children
//! below their parent and marked with `└── `. Expressions are written in the
//! notation of their `Debug` form: `Binary { op: Eq, lhs: Variable("u"),
//! rhs: Literal(Int(1)) }`.
use vstd::prelude::*;

use crate::ast;
use crate::ast::{BinOp, Direction, Expr, Literal, SExpr, SItem, SLiteral, SOrderItem, UnOp};
use crate::plan::{keys_model, projs_model, Plan, PlanError, ProjectExpr, SPlan, SortKey};
use crate::text::{int_text, push_char, push_int};
use vstd::string::StringExecFns;

verus! {

// ---- strings -----------------------------------------------------------------

/// The `Debug` text of a string: the string between double quotes, with
/// quotes, backslashes and the characters that do not print escaped.
pub uninterp spec fn debug_str(s: Seq<char>) -> Seq<char>;

/// The `Debug` text of `s` (`<str as Debug>::fmt`).
#[verifier::external_body]
fn debug_quoted(s: &String) -> (r: String)
    ensures
        r@ == debug_str(s@),
{
    format!("{:?}", s)
}

// ---- expressions ---------------------------------------------------------------

pub open spec fn binop_name(op: BinOp) -> Seq<char> {
    match op {
        BinOp::Or => "Or"@,
        BinOp::Xor => "Xor"@,
        BinOp::And => "And"@,
        BinOp::Eq => "Eq"@,
        BinOp::Neq => "Neq"@,
        BinOp::Lt => "Lt"@,
        BinOp::Lte => "Lte"@,
        BinOp::Gt => "Gt"@,
        BinOp::Gte => "Gte"@,
        BinOp::In => "In"@,
        BinOp::StartsWith => "StartsWith"@,
        BinOp::EndsWith => "EndsWith"@,
        BinOp::Contains => "Contains"@,
        BinOp::Add => "Add"@,
        BinOp::Sub => "Sub"@,
        BinOp::Mul => "Mul"@,
        BinOp::Div => "Div"@,
        BinOp::Mod => "Mod"@,
    }
}

pub open spec fn unop_name(op: UnOp) -> Seq<char> {
    match op {
        UnOp::Not => "Not"@,
        UnOp::Neg => "Neg"@,
        UnOp::IsNull => "IsNull"@,
        UnOp::IsNotNull => "IsNotNull"@,
    }
}

pub open spec fn bool_text(b: bool) -> Seq<char> {
    if b {
        "true"@
    } else {
        "false"@
    }
}

pub open spec fn lit_text(l: SLiteral) -> Seq<char> {
    match l {
        SLiteral::Int(i) => "Int("@ + int_text(i) + ")"@,
        SLiteral::Float(f) => "Float("@ + f + ")"@,
        SLiteral::Str(s) => "String("@ + debug_str(s) + ")"@,
        SLiteral::Bool(b) => "Bool("@ + bool_text(b) + ")"@,
        SLiteral::Null => "Null"@,
    }
}

/// The text of an expression.
pub open spec fn expr_text(e: SExpr) -> Seq<char>
    decreases e,
{
    match e {
        SExpr::Lit(l) => "Literal("@ + lit_text(l) + ")"@,
        SExpr::Var(v) => "Variable("@ + debug_str(v) + ")"@,
        SExpr::Param(p) => "Param("@ + debug_str(p) + ")"@,
        SExpr::Prop(b, k) => "Property { base: "@ + expr_text(*b) + ", key: "@ + debug_str(k) + " }"@,
        SExpr::Bin(op, l, r) => "Binary { op: "@ + binop_name(op) + ", lhs: "@ + expr_text(*l)
            + ", rhs: "@ + expr_text(*r) + " }"@,
        SExpr::Un(op, x) => "Unary { op: "@ + unop_name(op) + ", operand: "@ + expr_text(*x)
            + " }"@,
        SExpr::List(items) => "List(["@ + list_text(items) + "])"@,
        SExpr::MapLit(entries) => "Map(["@ + entries_text(entries) + "])"@,
    }
}

/// The texts of expressions, separated by `, `.
pub open spec fn list_text(s: Seq<SExpr>) -> Seq<char>
    decreases s,
{
    if s.len() == 0 {
        Seq::empty()
    } else if s.len() == 1 {
        expr_text(s[0])
    } else {
        list_text(s.subrange(0, s.len() - 1)) + ", "@ + expr_text(s[s.len() - 1])
    }
}

pub open spec fn entries_text(s: Seq<(Seq<char>, SExpr)>) -> Seq<char>
    decreases s,
{
    if s.len() == 0 {
        Seq::empty()
    } else if s.len() == 1 {
        "("@ + debug_str(s[0].0) + ", "@ + expr_text(s[0].1) + ")"@
    } else {
        entries_text(s.subrange(0, s.len() - 1)) + ", "@ + "("@ + debug_str(s[s.len() - 1].0) + ", "@
            + expr_text(s[s.len() - 1].1) + ")"@
    }
}

// ---- plans -------------------------------------------------------------------------

/// A name, or `_` for none.
pub open spec fn opt_text(v: Option<Seq<char>>) -> Seq<char> {
    match v {
        Some(x) => x,
        None => "_"@,
    }
}

pub open spec fn dir_text(d: Direction) -> Seq<char> {
    match d {
        Direction::Outgoing => "->"@,
        Direction::Incoming => "<-"@,
        Direction::Undirected => "--"@,
    }
}

/// Names separated by `, `.
pub open spec fn join(s: Seq<Seq<char>>) -> Seq<char>
    decreases s.len(),
{
    if s.len() == 0 {
        Seq::empty()
    } else if s.len() == 1 {
        s[0]
    } else {
        join(s.drop_last()) + ", "@ + s.last()
    }
}

pub open spec fn item_text(e: SItem) -> Seq<char> {
    match e.alias {
        Some(a) => expr_text(e.expr) + " AS "@ + a,
        None => expr_text(e.expr),
    }
}

pub open spec fn items_text(s: Seq<SItem>) -> Seq<char>
    decreases s.len(),
{
    if s.len() == 0 {
        Seq::empty()
    } else if s.len() == 1 {
        item_text(s[0])
    } else {
        items_text(s.drop_last()) + ", "@ + item_text(s.last())
    }
}

pub open spec fn key_text(k: SOrderItem) -> Seq<char> {
    expr_text(k.expr) + if k.desc {
        " DESC"@
    } else {
        " ASC"@
    }
}

pub open spec fn keys_text(s: Seq<SOrderItem>) -> Seq<char>
    decreases s.len(),
{
    if s.len() == 0 {
        Seq::empty()
    } else if s.len() == 1 {
        key_text(s[0])
    } else {
        keys_text(s.drop_last()) + ", "@ + key_text(s.last())
    }
}

pub open spec fn scan_line(var: Option<Seq<char>>, label: Option<Seq<char>>) -> Seq<char> {
    "Scan { var: "@ + opt_text(var) + ", label: "@ + opt_text(label) + " }"@
}

pub open spec fn expand_line(
    src: Option<Seq<char>>,
    rel_var: Option<Seq<char>>,
    rel_types: Seq<Seq<char>>,
    direction: Direction,
    dst: Option<Seq<char>>,
    dst_label: Option<Seq<char>>,
) -> Seq<char> {
    "Expand { src: "@ + opt_text(src) + ", rel: "@ + opt_text(rel_var) + ", types: ["@ + join(
        rel_types,
    ) + "], dir: "@ + dir_text(direction) + ", dst: "@ + opt_text(dst) + ", dst_label: "@
        + opt_text(dst_label) + " }"@
}

pub open spec fn unwind_line(expr: SExpr, var: Seq<char>) -> Seq<char> {
    "Unwind { expr: "@ + expr_text(expr) + ", var: "@ + var + " }"@
}

pub open spec fn delete_line(detach: bool, exprs: Seq<SExpr>) -> Seq<char> {
    "Delete { detach: "@ + bool_text(detach) + ", exprs: ["@ + list_text(exprs) + "] }"@
}

/// The line of the root operator of `p`, without its line break.
pub open spec fn node_line(p: SPlan) -> Seq<char> {
    match p {
        SPlan::Empty => "Empty"@,
        SPlan::Scan { var, label } => scan_line(var, label),
        SPlan::Expand { src, rel_var, rel_types, direction, dst, dst_label, .. } => expand_line(
            src,
            rel_var,
            rel_types,
            direction,
            dst,
            dst_label,
        ),
        SPlan::Filter { pred, .. } => "Filter { pred: "@ + expr_text(pred) + " }"@,
        SPlan::Project { exprs, .. } => "Project { exprs: ["@ + items_text(exprs) + "] }"@,
        SPlan::Distinct { .. } => "Distinct"@,
        SPlan::Sort { keys, .. } => "Sort { keys: ["@ + keys_text(keys) + "] }"@,
        SPlan::Skip { count, .. } => "Skip { count: "@ + expr_text(count) + " }"@,
        SPlan::Limit { count, .. } => "Limit { count: "@ + expr_text(count) + " }"@,
        SPlan::Cartesian { .. } => "Cartesian"@,
        SPlan::Optional { .. } => "Optional"@,
        SPlan::Unwind { expr, var, .. } => unwind_line(expr, var),
        SPlan::Delete { detach, exprs, .. } => delete_line(detach, exprs),
    }
}

/// `n` indentation steps of four spaces.
pub open spec fn indent(n: nat) -> Seq<char>
    decreases n,
{
    if n == 0 {
        Seq::empty()
    } else {
        indent((n - 1) as nat) + "    "@
    }
}

/// What stands before the line of an operator at `depth`.
pub open spec fn lead(depth: usize, root: bool) -> Seq<char> {
    indent(if depth > 0 {
        (depth - 1) as nat
    } else {
        0
    }) + if root {
        Seq::empty()
    } else {
        "└── "@
    }
}

/// The depth of the children of an operator at `depth`.
pub open spec fn child_depth(depth: usize) -> usize {
    if depth < usize::MAX {
        (depth + 1) as usize
    } else {
        depth
    }
}

/// The text of the tree `p` whose root stands at `depth`.
pub open spec fn plan_text(p: SPlan, depth: usize, root: bool) -> Seq<char>
    decreases p,
{
    let line = lead(depth, root) + node_line(p) + seq!['\n'];
    let d = child_depth(depth);
    match p {
        SPlan::Empty => line,
        SPlan::Scan { .. } => line,
        SPlan::Expand { input, .. } => line + plan_text(*input, d, false),
        SPlan::Filter { input, .. } => line + plan_text(*input, d, false),
        SPlan::Project { input, .. } => line + plan_text(*input, d, false),
        SPlan::Distinct { input } => line + plan_text(*input, d, false),
        SPlan::Sort { input, .. } => line + plan_text(*input, d, false),
        SPlan::Skip { input, .. } => line + plan_text(*input, d, false),
        SPlan::Limit { input, .. } => line + plan_text(*input, d, false),
        SPlan::Cartesian { left, right } => line + plan_text(*left, d, false) + plan_text(
            *right,
            d,
            false,
        ),
        SPlan::Optional { input, optional } => line + plan_text(*input, d, false) + plan_text(
            *optional,
            d,
            false,
        ),
        SPlan::Unwind { input, .. } => line + plan_text(*input, d, false),
        SPlan::Delete { input, .. } => line + plan_text(*input, d, false),
    }
}

/// The text of a plan is the line of its root, after the lead of its depth,
/// then the texts of its inputs one level deeper; a line below the root is
/// led by four spaces per level above its parent and `└── `.
pub proof fn lemma_plan_text_layout(p: SPlan, depth: usize, root: bool)
    ensures
        plan_text(p, depth, root) == lead(depth, root) + node_line(p) + seq!['\n'] + children_text(
            p,
            child_depth(depth),
        ),
        lead(depth, false) == indent(if depth > 0 {
            (depth - 1) as nat
        } else {
            0
        }) + "└── "@,
        lead(depth, true) == indent(if depth > 0 {
            (depth - 1) as nat
        } else {
            0
        }),
        indent((depth + 1) as nat) == indent(depth as nat) + "    "@,
{
    let line = lead(depth, root) + node_line(p) + seq!['\n'];
    assert(line + Seq::<char>::empty() =~= line);
    assert(indent(if depth > 0 {
        (depth - 1) as nat
    } else {
        0
    }) + Seq::<char>::empty() =~= indent(if depth > 0 {
        (depth - 1) as nat
    } else {
        0
    }));
    match p {
        SPlan::Cartesian { left, right } => {
            let d = child_depth(depth);
            assert(line + plan_text(*left, d, false) + plan_text(*right, d, false) =~= line + (
            plan_text(*left, d, false) + plan_text(*right, d, false)));
        },
        SPlan::Optional { input, optional } => {
            let d = child_depth(depth);
            assert(line + plan_text(*input, d, false) + plan_text(*optional, d, false) =~= line + (
            plan_text(*input, d, false) + plan_text(*optional, d, false)));
        },
        _ => {},
    }
}

/// The text of the children of the root of `p`, at `d`.
pub open spec fn children_text(p: SPlan, d: usize) -> Seq<char> {
    match p {
        SPlan::Empty => Seq::empty(),
        SPlan::Scan { .. } => Seq::empty(),
        SPlan::Expand { input, .. } => plan_text(*input, d, false),
        SPlan::Filter { input, .. } => plan_text(*input, d, false),
        SPlan::Project { input, .. } => plan_text(*input, d, false),
        SPlan::Distinct { input } => plan_text(*input, d, false),
        SPlan::Sort { input, .. } => plan_text(*input, d, false),
        SPlan::Skip { input, .. } => plan_text(*input, d, false),
        SPlan::Limit { input, .. } => plan_text(*input, d, false),
        SPlan::Cartesian { left, right } => plan_text(*left, d, false) + plan_text(*right, d, false),
        SPlan::Optional { input, optional } => plan_text(*input, d, false) + plan_text(
            *optional,
            d,
            false,
        ),
        SPlan::Unwind { input, .. } => plan_text(*input, d, false),
        SPlan::Delete { input, .. } => plan_text(*input, d, false),
    }
}

proof fn lemma_plan_text_split(p: SPlan, depth: usize, root: bool)
    ensures
        plan_text(p, depth, root) == lead(depth, root) + node_line(p) + seq!['\n'] + children_text(
            p,
            child_depth(depth),
        ),
{
    match p {
        SPlan::Empty => {
            assert(lead(depth, root) + node_line(p) + seq!['\n'] + Seq::<char>::empty() =~= lead(
                depth,
                root,
            ) + node_line(p) + seq!['\n']);
        },
        SPlan::Scan { .. } => {
            assert(lead(depth, root) + node_line(p) + seq!['\n'] + Seq::<char>::empty() =~= lead(
                depth,
                root,
            ) + node_line(p) + seq!['\n']);
        },
        SPlan::Cartesian { left, right } => {
            let line = lead(depth, root) + node_line(p) + seq!['\n'];
            let d = child_depth(depth);
            assert(line + plan_text(*left, d, false) + plan_text(*right, d, false) =~= line + (
            plan_text(*left, d, false) + plan_text(*right, d, false)));
        },
        SPlan::Optional { input, optional } => {
            let line = lead(depth, root) + node_line(p) + seq!['\n'];
            let d = child_depth(depth);
            assert(line + plan_text(*input, d, false) + plan_text(*optional, d, false) =~= line + (
            plan_text(*input, d, false) + plan_text(*optional, d, false)));
        },
        _ => {},
    }
}

pub open spec fn plan_error_text(e: PlanError) -> Seq<char> {
    match e {
        PlanError::EmptyQuery => "plan: empty query"@,
        PlanError::OptionalMatchWithoutAnchor => "plan: OPTIONAL MATCH without a preceding pattern to extend"@,
    }
}

// ---- writing ---------------------------------------------------------------------------

/// Appends the `Debug` text of `s`.
fn push_quoted(out: &mut String, s: &String)
    ensures
        final(out)@ == old(out)@ + debug_str(s@),
{
    let q = debug_quoted(s);
    out.append(q.as_str());
}

fn binop_name_x(op: BinOp) -> (r: &'static str)
    ensures
        r@ == binop_name(op),
{
    match op {
        BinOp::Or => "Or",
        BinOp::Xor => "Xor",
        BinOp::And => "And",
        BinOp::Eq => "Eq",
        BinOp::Neq => "Neq",
        BinOp::Lt => "Lt",
        BinOp::Lte => "Lte",
        BinOp::Gt => "Gt",
        BinOp::Gte => "Gte",
        BinOp::In => "In",
        BinOp::StartsWith => "StartsWith",
        BinOp::EndsWith => "EndsWith",
        BinOp::Contains => "Contains",
        BinOp::Add => "Add",
        BinOp::Sub => "Sub",
        BinOp::Mul => "Mul",
        BinOp::Div => "Div",
        BinOp::Mod => "Mod",
    }
}

fn unop_name_x(op: UnOp) -> (r: &'static str)
    ensures
        r@ == unop_name(op),
{
    match op {
        UnOp::Not => "Not",
        UnOp::Neg => "Neg",
        UnOp::IsNull => "IsNull",
        UnOp::IsNotNull => "IsNotNull",
    }
}

fn bool_text_x(b: bool) -> (r: &'static str)
    ensures
        r@ == bool_text(b),
{
    if b {
        "true"
    } else {
        "false"
    }
}

fn write_lit(l: &Literal, out: &mut String)
    ensures
        final(out)@ == old(out)@ + lit_text(l@),
{
    let ghost o = old(out)@;
    match l {
        Literal::Int(i) => {
            out.append("Int(");
            push_int(out, *i);
            out.append(")");
            proof {
                assert(o + "Int("@ + int_text(*i) + ")"@ =~= o + lit_text(l@));
            }
        },
        Literal::Float(f) => {
            out.append("Float(");
            out.append(f.as_str());
            out.append(")");
            proof {
                assert(o + "Float("@ + f@ + ")"@ =~= o + lit_text(l@));
            }
        },
        Literal::String(s) => {
            out.append("String(");
            push_quoted(out, s);
            out.append(")");
            proof {
                assert(o + "String("@ + debug_str(s@) + ")"@ =~= o + lit_text(l@));
            }
        },
        Literal::Bool(b) => {
            out.append("Bool(");
            out.append(bool_text_x(*b));
            out.append(")");
            proof {
                assert(o + "Bool("@ + bool_text(*b) + ")"@ =~= o + lit_text(l@));
            }
        },
        Literal::Null => {
            out.append("Null");
        },
    }
}

/// Appends the text of `e`.
fn write_expr(e: &Expr, out: &mut String)
    ensures
        final(out)@ == old(out)@ + expr_text(e@),
    decreases e,
{
    let ghost o = old(out)@;
    match e {
        Expr::Literal(l) => {
            out.append("Literal(");
            write_lit(l, out);
            out.append(")");
            proof {
                assert(o + "Literal("@ + lit_text(l@) + ")"@ =~= o + expr_text(e@));
            }
        },
        Expr::Variable(v) => {
            out.append("Variable(");
            push_quoted(out, v);
            out.append(")");
            proof {
                assert(o + "Variable("@ + debug_str(v@) + ")"@ =~= o + expr_text(e@));
            }
        },
        Expr::Param(p) => {
            out.append("Param(");
            push_quoted(out, p);
            out.append(")");
            proof {
                assert(o + "Param("@ + debug_str(p@) + ")"@ =~= o + expr_text(e@));
            }
        },
        Expr::Property { base, key } => {
            out.append("Property { base: ");
            write_expr(base, out);
            out.append(", key: ");
            push_quoted(out, key);
            out.append(" }");
            proof {
                assert(o + "Property { base: "@ + expr_text(base@) + ", key: "@ + debug_str(key@)
                    + " }"@ =~= o + expr_text(e@));
            }
        },
        Expr::Binary { op, lhs, rhs } => {
            out.append("Binary { op: ");
            out.append(binop_name_x(*op));
            out.append(", lhs: ");
            write_expr(lhs, out);
            out.append(", rhs: ");
            write_expr(rhs, out);
            out.append(" }");
            proof {
                assert(o + "Binary { op: "@ + binop_name(*op) + ", lhs: "@ + expr_text(lhs@)
                    + ", rhs: "@ + expr_text(rhs@) + " }"@ =~= o + expr_text(e@));
            }
        },
        Expr::Unary { op, operand } => {
            out.append("Unary { op: ");
            out.append(unop_name_x(*op));
            out.append(", operand: ");
            write_expr(operand, out);
            out.append(" }");
            proof {
                assert(o + "Unary { op: "@ + unop_name(*op) + ", operand: "@ + expr_text(operand@)
                    + " }"@ =~= o + expr_text(e@));
            }
        },
        Expr::List(items) => {
            out.append("List([");
            let ghost o1 = out@;
            let ghost m = ast::exprs_model(items@);
            proof {
                ast::lemma_exprs_model_len(items@);
                assert(o1 + list_text(m.take(0)) =~= o1);
            }
            let mut k: usize = 0;
            while k < items.len()
                invariant
                    k <= items@.len(),
                    *e == Expr::List(*items),
                    m == ast::exprs_model(items@),
                    m.len() == items@.len(),
                    forall|j: int| 0 <= j < items@.len() ==> #[trigger] m[j] == items@[j]@,
                    out@ == o1 + list_text(m.take(k as int)),
                decreases items@.len() - k,
            {
                proof {
                    assert(decreases_to!(*e => (*e)->List_0));
                    assert(m.take(k + 1).subrange(0, k as int) =~= m.take(k as int));
                    assert(m.take(k + 1)[k as int] == m[k as int]);
                }
                if k > 0 {
                    out.append(", ");
                }
                write_expr(&items[k], out);
                proof {
                    if k == 0 {
                        assert(o1 + Seq::<char>::empty() + expr_text(m[0]) =~= o1 + list_text(
                            m.take(1),
                        ));
                    } else {
                        assert(o1 + list_text(m.take(k as int)) + ", "@ + expr_text(m[k as int])
                            =~= o1 + list_text(m.take(k + 1)));
                    }
                }
                k = k + 1;
            }
            out.append("])");
            proof {
                assert(m.take(items@.len() as int) =~= m);
                assert(o1 + list_text(m) + "])"@ =~= o + expr_text(e@));
            }
        },
        Expr::MapLit(entries) => {
            out.append("Map([");
            let ghost o1 = out@;
            let ghost m = ast::entries_model(entries@);
            proof {
                ast::lemma_entries_model_len(entries@);
                assert(o1 + entries_text(m.take(0)) =~= o1);
            }
            let mut k: usize = 0;
            while k < entries.len()
                invariant
                    k <= entries@.len(),
                    *e == Expr::MapLit(*entries),
                    m == ast::entries_model(entries@),
                    m.len() == entries@.len(),
                    forall|j: int|
                        0 <= j < entries@.len() ==> #[trigger] m[j] == (
                            entries@[j].0@,
                            entries@[j].1@,
                        ),
                    out@ == o1 + entries_text(m.take(k as int)),
                decreases entries@.len() - k,
            {
                proof {
                    assert(decreases_to!(*e => (*e)->MapLit_0));
                    assert(m.take(k + 1).subrange(0, k as int) =~= m.take(k as int));
                    assert(m.take(k + 1)[k as int] == m[k as int]);
                }
                let ghost before = out@;
                if k > 0 {
                    out.append(", ");
                }
                out.append("(");
                push_quoted(out, &entries[k].0);
                out.append(", ");
                write_expr(&entries[k].1, out);
                out.append(")");
                proof {
                    let kv = m[k as int];
                    if k == 0 {
                        assert(before + "("@ + debug_str(kv.0) + ", "@ + expr_text(kv.1) + ")"@ =~= o1
                            + entries_text(m.take(1)));
                    } else {
                        assert(before + ", "@ + "("@ + debug_str(kv.0) + ", "@ + expr_text(kv.1) + ")"@
                            =~= o1 + entries_text(m.take(k + 1)));
                    }
                }
                k = k + 1;
            }
            out.append("])");
            proof {
                assert(m.take(entries@.len() as int) =~= m);
                assert(o1 + entries_text(m) + "])"@ =~= o + expr_text(e@));
            }
        },
    }
}

fn write_opt(v: &Option<String>, out: &mut String)
    ensures
        final(out)@ == old(out)@ + opt_text(ast::opt_str(*v)),
{
    match v {
        Some(x) => out.append(x.as_str()),
        None => out.append("_"),
    }
}

fn write_join(names: &Vec<String>, out: &mut String)
    ensures
        final(out)@ == old(out)@ + join(ast::strs(names@)),
{
    let ghost o = old(out)@;
    let ghost m = ast::strs(names@);
    proof {
        assert(o + join(m.take(0)) =~= o);
    }
    let mut k: usize = 0;
    while k < names.len()
        invariant
            k <= names@.len(),
            m == ast::strs(names@),
            m.len() == names@.len(),
            out@ == o + join(m.take(k as int)),
        decreases names@.len() - k,
    {
        proof {
            assert(m.take(k + 1).drop_last() =~= m.take(k as int));
            assert(m.take(k + 1).last() == names@[k as int]@);
        }
        if k > 0 {
            out.append(", ");
        }
        out.append(names[k].as_str());
        proof {
            if k == 0 {
                assert(o + Seq::<char>::empty() + names@[0]@ =~= o + join(m.take(1)));
            } else {
                assert(o + join(m.take(k as int)) + ", "@ + names@[k as int]@ =~= o + join(
                    m.take(k + 1),
                ));
            }
        }
        k = k + 1;
    }
    proof {
        assert(m.take(names@.len() as int) =~= m);
    }
}

fn write_items(exprs: &Vec<ProjectExpr>, out: &mut String)
    ensures
        final(out)@ == old(out)@ + items_text(projs_model(exprs@)),
{
    let ghost o = old(out)@;
    let ghost m = projs_model(exprs@);
    proof {
        assert(o + items_text(m.take(0)) =~= o);
    }
    let mut k: usize = 0;
    while k < exprs.len()
        invariant
            k <= exprs@.len(),
            m == projs_model(exprs@),
            m.len() == exprs@.len(),
            out@ == o + items_text(m.take(k as int)),
        decreases exprs@.len() - k,
    {
        proof {
            assert(m.take(k + 1).drop_last() =~= m.take(k as int));
            assert(m.take(k + 1).last() == exprs@[k as int]@);
        }
        let ghost before = out@;
        if k > 0 {
            out.append(", ");
        }
        let ghost mid = out@;
        write_expr(&exprs[k].expr, out);
        match &exprs[k].alias {
            Some(a) => {
                out.append(" AS ");
                out.append(a.as_str());
            },
            None => {},
        }
        proof {
            assert(out@ =~= mid + item_text(exprs@[k as int]@));
            if k == 0 {
                assert(o + Seq::<char>::empty() + item_text(m[0]) =~= o + items_text(m.take(1)));
            } else {
                assert(o + items_text(m.take(k as int)) + ", "@ + item_text(m[k as int]) =~= o
                    + items_text(m.take(k + 1)));
            }
        }
        k = k + 1;
    }
    proof {
        assert(m.take(exprs@.len() as int) =~= m);
    }
}

fn write_keys(keys: &Vec<SortKey>, out: &mut String)
    ensures
        final(out)@ == old(out)@ + keys_text(keys_model(keys@)),
{
    let ghost o = old(out)@;
    let ghost m = keys_model(keys@);
    proof {
        assert(o + keys_text(m.take(0)) =~= o);
    }
    let mut k: usize = 0;
    while k < keys.len()
        invariant
            k <= keys@.len(),
            m == keys_model(keys@),
            m.len() == keys@.len(),
            out@ == o + keys_text(m.take(k as int)),
        decreases keys@.len() - k,
    {
        proof {
            assert(m.take(k + 1).drop_last() =~= m.take(k as int));
            assert(m.take(k + 1).last() == keys@[k as int]@);
        }
        if k > 0 {
            out.append(", ");
        }
        let ghost mid = out@;
        write_expr(&keys[k].expr, out);
        if keys[k].desc {
            out.append(" DESC");
        } else {
            out.append(" ASC");
        }
        proof {
            assert(out@ =~= mid + key_text(keys@[k as int]@));
            if k == 0 {
                assert(o + Seq::<char>::empty() + key_text(m[0]) =~= o + keys_text(m.take(1)));
            } else {
                assert(o + keys_text(m.take(k as int)) + ", "@ + key_text(m[k as int]) =~= o
                    + keys_text(m.take(k + 1)));
            }
        }
        k = k + 1;
    }
    proof {
        assert(m.take(keys@.len() as int) =~= m);
    }
}

fn write_exprs(es: &Vec<Expr>, out: &mut String)
    ensures
        final(out)@ == old(out)@ + list_text(ast::exprs_model(es@)),
{
    let ghost o = old(out)@;
    let ghost m = ast::exprs_model(es@);
    proof {
        ast::lemma_exprs_model_len(es@);
        assert(o + list_text(m.take(0)) =~= o);
    }
    let mut k: usize = 0;
    while k < es.len()
        invariant
            k <= es@.len(),
            m == ast::exprs_model(es@),
            m.len() == es@.len(),
            forall|j: int| 0 <= j < es@.len() ==> #[trigger] m[j] == es@[j]@,
            out@ == o + list_text(m.take(k as int)),
        decreases es@.len() - k,
    {
        proof {
            assert(m.take(k + 1).subrange(0, k as int) =~= m.take(k as int));
            assert(m.take(k + 1)[k as int] == m[k as int]);
        }
        if k > 0 {
            out.append(", ");
        }
        write_expr(&es[k], out);
        proof {
            if k == 0 {
                assert(o + Seq::<char>::empty() + expr_text(m[0]) =~= o + list_text(m.take(1)));
            } else {
                assert(o + list_text(m.take(k as int)) + ", "@ + expr_text(m[k as int]) =~= o
                    + list_text(m.take(k + 1)));
            }
        }
        k = k + 1;
    }
    proof {
        assert(m.take(es@.len() as int) =~= m);
    }
}

fn dir_text_x(d: Direction) -> (r: &'static str)
    ensures
        r@ == dir_text(d),
{
    match d {
        Direction::Outgoing => "->",
        Direction::Incoming => "<-",
        Direction::Undirected => "--",
    }
}

fn write_scan_line(var: &Option<String>, label: &Option<String>, out: &mut String)
    ensures
        final(out)@ == old(out)@ + scan_line(ast::opt_str(*var), ast::opt_str(*label)),
{
    let ghost o = old(out)@;
    out.append("Scan { var: ");
    write_opt(var, out);
    out.append(", label: ");
    write_opt(label, out);
    out.append(" }");
    proof {
        assert(out@ =~= o + scan_line(ast::opt_str(*var), ast::opt_str(*label)));
    }
}

#[verifier::rlimit(30)]
fn write_expand_line(
    src: &Option<String>,
    rel_var: &Option<String>,
    rel_types: &Vec<String>,
    direction: Direction,
    dst: &Option<String>,
    dst_label: &Option<String>,
    out: &mut String,
)
    ensures
        final(out)@ == old(out)@ + expand_line(
            ast::opt_str(*src),
            ast::opt_str(*rel_var),
            ast::strs(rel_types@),
            direction,
            ast::opt_str(*dst),
            ast::opt_str(*dst_label),
        ),
{
    let ghost o = old(out)@;
    out.append("Expand { src: ");
    write_opt(src, out);
    out.append(", rel: ");
    write_opt(rel_var, out);
    out.append(", types: [");
    write_join(rel_types, out);
    out.append("], dir: ");
    out.append(dir_text_x(direction));
    out.append(", dst: ");
    write_opt(dst, out);
    out.append(", dst_label: ");
    write_opt(dst_label, out);
    out.append(" }");
    proof {
        assert(out@ =~= o + expand_line(
            ast::opt_str(*src),
            ast::opt_str(*rel_var),
            ast::strs(rel_types@),
            direction,
            ast::opt_str(*dst),
            ast::opt_str(*dst_label),
        ));
    }
}

/// Appends `head`, the text of `e`, and `tail`.
fn write_wrapped(head: &str, e: &Expr, tail: &str, out: &mut String)
    ensures
        final(out)@ == old(out)@ + head@ + expr_text(e@) + tail@,
{
    out.append(head);
    write_expr(e, out);
    out.append(tail);
}

fn write_unwind_line(expr: &Expr, var: &String, out: &mut String)
    ensures
        final(out)@ == old(out)@ + unwind_line(expr@, var@),
{
    let ghost o = old(out)@;
    out.append("Unwind { expr: ");
    write_expr(expr, out);
    out.append(", var: ");
    out.append(var.as_str());
    out.append(" }");
    proof {
        assert(out@ =~= o + unwind_line(expr@, var@));
    }
}

fn write_delete_line(detach: bool, exprs: &Vec<Expr>, out: &mut String)
    ensures
        final(out)@ == old(out)@ + delete_line(detach, ast::exprs_model(exprs@)),
{
    let ghost o = old(out)@;
    out.append("Delete { detach: ");
    out.append(bool_text_x(detach));
    out.append(", exprs: [");
    write_exprs(exprs, out);
    out.append("] }");
    proof {
        assert(out@ =~= o + delete_line(detach, ast::exprs_model(exprs@)));
    }
}

/// Appends the line of the root operator of `p`, without its line break.
fn write_node_line(p: &Plan, out: &mut String)
    ensures
        final(out)@ == old(out)@ + node_line(p@),
{
    let ghost o = old(out)@;
    match p {
        Plan::Empty => out.append("Empty"),
        Plan::Scan { var, label } => write_scan_line(var, label, out),
        Plan::Expand { src, rel_var, rel_types, direction, dst, dst_label, .. } => write_expand_line(
            src,
            rel_var,
            rel_types,
            *direction,
            dst,
            dst_label,
            out,
        ),
        Plan::Filter { pred, .. } => write_wrapped("Filter { pred: ", pred, " }", out),
        Plan::Project { exprs, .. } => {
            out.append("Project { exprs: [");
            write_items(exprs, out);
            out.append("] }");
        },
        Plan::Distinct { .. } => out.append("Distinct"),
        Plan::Sort { keys, .. } => {
            out.append("Sort { keys: [");
            write_keys(keys, out);
            out.append("] }");
        },
        Plan::Skip { count, .. } => write_wrapped("Skip { count: ", count, " }", out),
        Plan::Limit { count, .. } => write_wrapped("Limit { count: ", count, " }", out),
        Plan::Cartesian { .. } => out.append("Cartesian"),
        Plan::Optional { .. } => out.append("Optional"),
        Plan::Unwind { expr, var, .. } => write_unwind_line(expr, var, out),
        Plan::Delete { detach, exprs, .. } => write_delete_line(*detach, exprs, out),
    }
}

fn write_lead(depth: usize, root: bool, out: &mut String)
    ensures
        final(out)@ == old(out)@ + lead(depth, root),
{
    let ghost o = old(out)@;
    let n: usize = if depth > 0 {
        depth - 1
    } else {
        0
    };
    let mut k: usize = 0;
    proof {
        assert(o + indent(0) =~= o);
    }
    while k < n
        invariant
            k <= n,
            out@ == o + indent(k as nat),
        decreases n - k,
    {
        out.append("    ");
        proof {
            assert(o + indent(k as nat) + "    "@ =~= o + indent((k + 1) as nat));
        }
        k = k + 1;
    }
    if !root {
        out.append("└── ");
    }
    proof {
        assert(out@ =~= o + lead(depth, root));
    }
}

/// Appends the text of the tree `p` whose root stands at `depth`.
fn write_plan(p: &Plan, out: &mut String, depth: usize, root: bool)
    ensures
        final(out)@ == old(out)@ + plan_text(p@, depth, root),
    decreases p,
{
    let ghost o = old(out)@;
    write_lead(depth, root, out);
    write_node_line(p, out);
    push_char(out, '\n');
    let ghost line = lead(depth, root) + node_line(p@) + seq!['\n'];
    proof {
        assert(out@ =~= o + line);
    }
    let d: usize = if depth < usize::MAX {
        depth + 1
    } else {
        depth
    };
    let ghost mid = out@;
    match p {
        Plan::Empty => {},
        Plan::Scan { .. } => {},
        Plan::Expand { input, .. } => write_plan(input, out, d, false),
        Plan::Filter { input, .. } => write_plan(input, out, d, false),
        Plan::Project { input, .. } => write_plan(input, out, d, false),
        Plan::Distinct { input } => write_plan(input, out, d, false),
        Plan::Sort { input, .. } => write_plan(input, out, d, false),
        Plan::Skip { input, .. } => write_plan(input, out, d, false),
        Plan::Limit { input, .. } => write_plan(input, out, d, false),
        Plan::Cartesian { left, right } => {
            write_plan(left, out, d, false);
            write_plan(right, out, d, false);
            proof {
                assert(out@ =~= mid + (plan_text(left@, d, false) + plan_text(right@, d, false)));
            }
        },
        Plan::Optional { input, optional } => {
            write_plan(input, out, d, false);
            write_plan(optional, out, d, false);
            proof {
                assert(out@ =~= mid + (plan_text(input@, d, false) + plan_text(optional@, d, false)));
            }
        },
        Plan::Unwind { input, .. } => write_plan(input, out, d, false),
        Plan::Delete { input, .. } => write_plan(input, out, d, false),
    }
    proof {
        lemma_plan_text_split(p@, depth, root);
        assert(out@ =~= o + plan_text(p@, depth, root));
    }
}

impl Plan {
    /// The indented tree text of the plan, one operator per line.
    pub fn to_string(&self) -> (r: String)
        ensures
            r@ == plan_text(self@, 0, true),
    {
        let mut out = String::new();
        write_plan(self, &mut out, 0, true);
        proof {
            assert(Seq::<char>::empty() + plan_text(self@, 0, true) =~= plan_text(self@, 0, true));
        }
        out
    }
}

impl PlanError {
    /// The message of the error.
    pub fn to_string(&self) -> (r: String)
        ensures
            r@ == plan_error_text(*self),
    {
        match self {
            PlanError::EmptyQuery => String::from_str("plan: empty query"),
            PlanError::OptionalMatchWithoutAnchor => String::from_str(
                "plan: OPTIONAL MATCH without a preceding pattern to extend",
            ),
        }
    }
}

} // verus!
