//! The query grammar, written as functions from a token sequence and a
//! position to what is parsed there and how many tokens it takes.
//!
//! The grammar, from the top:
//!
//! ```text
//! query      := clause*                        (all tokens consumed)
//! clause     := [OPTIONAL] MATCH pattern (',' pattern)*
//!             | WHERE expr | SKIP expr | LIMIT expr
//!             | WITH projection | RETURN projection
//!             | ORDER BY order_item (',' order_item)*
//!             | UNWIND expr AS ident
//!             | [DETACH] DELETE expr (',' expr)*
//! projection := [DISTINCT] item (',' item)*      item := expr [AS ident]
//! order_item := expr [ASC | ASCENDING | DESC | DESCENDING]
//! pattern    := node (rel node)*
//! node       := '(' [ident] (':' ident)* [map] ')'
//! rel        := '<' '-' [detail] '-' | '-' [detail] '-' '>' | '-' [detail] '-'
//! detail     := '[' [ident] [':' ident ('|' [':'] ident)*] [map] ']'
//! expr       := xor (OR xor)*        xor := and (XOR and)*
//! and        := not (AND not)*       not := NOT not | comparison
//! comparison        := add [comparison_op add | IN add | STARTS WITH add | ENDS WITH add
//!                    | CONTAINS add | IS NOT NULL | IS NULL]
//! add        := mul (('+' | '-') mul)*
//! mul        := unary (('*' | '/' | '%') unary)*
//! unary      := '-' unary | postfix     postfix := atom ('.' ident)*
//! atom       := param | int | float | string | TRUE | FALSE | NULL
//!             | '[' [expr (',' expr)*] ']' | map | '(' expr ')' | ident
//! map        := '{' [ident ':' expr (',' ident ':' expr)*] '}'
//! ```
//!
//! Repetitions and optional parts behave as in a PEG: an iteration that
//! does not parse completely is not taken.
use vstd::prelude::*;

use crate::ast::{BinOp, Direction, SChain, SClause, SExpr, SItem, SLiteral, SMatch, SNode, SOrderItem, SPattern, SProjection, SQuery, SRel, UnOp};
use crate::error::SParseError;
use crate::lexer::{
    keyword_case_variant, lemma_keyword_case_keeps_tokens, spec_tokenize, Keyword, SToken, Symbol, Token,
};

verus! {

// ---- the grammar as spec functions ---------------------------------------

pub open spec fn tv(t: Seq<Token>) -> Seq<SToken> {
    t.map_values(|x: Token| x@)
}

/// Tokens left from position `i`.
pub open spec fn rem(ts: Seq<SToken>, i: nat) -> nat {
    if i <= ts.len() {
        (ts.len() - i) as nat
    } else {
        0
    }
}

pub open spec fn kw_at(ts: Seq<SToken>, i: nat, k: Keyword) -> bool {
    i < ts.len() && ts[i as int] == SToken::Kw(k)
}

pub open spec fn sym_at(ts: Seq<SToken>, i: nat, s: Symbol) -> bool {
    i < ts.len() && ts[i as int] == SToken::Sym(s)
}

pub open spec fn ident_at(ts: Seq<SToken>, i: nat) -> Option<Seq<char>> {
    if i < ts.len() {
        match ts[i as int] {
            SToken::Ident(n) => Some(n),
            _ => None,
        }
    } else {
        None
    }
}

pub open spec fn bin(op: BinOp, l: SExpr, r: SExpr) -> SExpr {
    SExpr::Bin(op, Box::new(l), Box::new(r))
}

pub open spec fn un(op: UnOp, x: SExpr) -> SExpr {
    SExpr::Un(op, Box::new(x))
}

pub open spec fn comparison_op(s: Symbol) -> Option<BinOp> {
    match s {
        Symbol::Eq => Some(BinOp::Eq),
        Symbol::Neq => Some(BinOp::Neq),
        Symbol::Lt => Some(BinOp::Lt),
        Symbol::Lte => Some(BinOp::Lte),
        Symbol::Gt => Some(BinOp::Gt),
        Symbol::Gte => Some(BinOp::Gte),
        _ => None,
    }
}

pub open spec fn add_op(s: Symbol) -> Option<BinOp> {
    match s {
        Symbol::Plus => Some(BinOp::Add),
        Symbol::Dash => Some(BinOp::Sub),
        _ => None,
    }
}

pub open spec fn mul_op(s: Symbol) -> Option<BinOp> {
    match s {
        Symbol::Star => Some(BinOp::Mul),
        Symbol::Slash => Some(BinOp::Div),
        Symbol::Percent => Some(BinOp::Mod),
        _ => None,
    }
}

pub open spec fn comparison_op_at(ts: Seq<SToken>, i: nat) -> Option<BinOp> {
    if i < ts.len() {
        match ts[i as int] {
            SToken::Sym(s) => comparison_op(s),
            _ => None,
        }
    } else {
        None
    }
}

pub open spec fn add_op_at(ts: Seq<SToken>, i: nat) -> Option<BinOp> {
    if i < ts.len() {
        match ts[i as int] {
            SToken::Sym(s) => add_op(s),
            _ => None,
        }
    } else {
        None
    }
}

pub open spec fn mul_op_at(ts: Seq<SToken>, i: nat) -> Option<BinOp> {
    if i < ts.len() {
        match ts[i as int] {
            SToken::Sym(s) => mul_op(s),
            _ => None,
        }
    } else {
        None
    }
}

/// `expr` at `i`: the expression and the number of tokens it takes.
pub closed spec fn sp_expr(ts: Seq<SToken>, i: nat) -> Option<(SExpr, nat)>
    decreases rem(ts, i), 40nat,
{
    sp_or(ts, i)
}

pub closed spec fn sp_or(ts: Seq<SToken>, i: nat) -> Option<(SExpr, nat)>
    decreases rem(ts, i), 39nat,
{
    match sp_xor(ts, i) {
        None => None,
        Some((x, c)) => {
            let (e, d) = sp_or_tail(ts, i + c, x);
            Some((e, c + d))
        },
    }
}

pub closed spec fn sp_or_tail(ts: Seq<SToken>, i: nat, acc: SExpr) -> (SExpr, nat)
    decreases rem(ts, i), 38nat,
{
    if kw_at(ts, i, Keyword::Or) {
        match sp_xor(ts, i + 1) {
            Some((y, c)) => {
                let (e, d) = sp_or_tail(ts, i + 1 + c, bin(BinOp::Or, acc, y));
                (e, 1 + c + d)
            },
            None => (acc, 0),
        }
    } else {
        (acc, 0)
    }
}

pub closed spec fn sp_xor(ts: Seq<SToken>, i: nat) -> Option<(SExpr, nat)>
    decreases rem(ts, i), 37nat,
{
    match sp_and(ts, i) {
        None => None,
        Some((x, c)) => {
            let (e, d) = sp_xor_tail(ts, i + c, x);
            Some((e, c + d))
        },
    }
}

pub closed spec fn sp_xor_tail(ts: Seq<SToken>, i: nat, acc: SExpr) -> (SExpr, nat)
    decreases rem(ts, i), 36nat,
{
    if kw_at(ts, i, Keyword::Xor) {
        match sp_and(ts, i + 1) {
            Some((y, c)) => {
                let (e, d) = sp_xor_tail(ts, i + 1 + c, bin(BinOp::Xor, acc, y));
                (e, 1 + c + d)
            },
            None => (acc, 0),
        }
    } else {
        (acc, 0)
    }
}

pub closed spec fn sp_and(ts: Seq<SToken>, i: nat) -> Option<(SExpr, nat)>
    decreases rem(ts, i), 35nat,
{
    match sp_not(ts, i) {
        None => None,
        Some((x, c)) => {
            let (e, d) = sp_and_tail(ts, i + c, x);
            Some((e, c + d))
        },
    }
}

pub closed spec fn sp_and_tail(ts: Seq<SToken>, i: nat, acc: SExpr) -> (SExpr, nat)
    decreases rem(ts, i), 34nat,
{
    if kw_at(ts, i, Keyword::And) {
        match sp_not(ts, i + 1) {
            Some((y, c)) => {
                let (e, d) = sp_and_tail(ts, i + 1 + c, bin(BinOp::And, acc, y));
                (e, 1 + c + d)
            },
            None => (acc, 0),
        }
    } else {
        (acc, 0)
    }
}

pub closed spec fn sp_not(ts: Seq<SToken>, i: nat) -> Option<(SExpr, nat)>
    decreases rem(ts, i), 33nat,
{
    if kw_at(ts, i, Keyword::Not) {
        match sp_not(ts, i + 1) {
            Some((x, c)) => Some((un(UnOp::Not, x), 1 + c)),
            None => None,
        }
    } else {
        sp_comparison(ts, i)
    }
}

pub closed spec fn sp_comparison(ts: Seq<SToken>, i: nat) -> Option<(SExpr, nat)>
    decreases rem(ts, i), 32nat,
{
    match sp_add(ts, i) {
        None => None,
        Some((x, c)) => {
            let (e, d) = sp_comparison_tail(ts, i + c, x);
            Some((e, c + d))
        },
    }
}

/// Right operand of a binary predicate that starts `k` tokens after `i`.
pub closed spec fn sp_comparison_tail(ts: Seq<SToken>, i: nat, x: SExpr) -> (SExpr, nat)
    decreases rem(ts, i), 31nat,
{
    if comparison_op_at(ts, i) is Some {
        match sp_add(ts, i + 1) {
            Some((y, c)) => (bin(comparison_op_at(ts, i)->0, x, y), 1 + c),
            None => (x, 0),
        }
    } else if kw_at(ts, i, Keyword::In) {
        match sp_add(ts, i + 1) {
            Some((y, c)) => (bin(BinOp::In, x, y), 1 + c),
            None => (x, 0),
        }
    } else if kw_at(ts, i, Keyword::Starts) && kw_at(ts, i + 1, Keyword::With) {
        match sp_add(ts, i + 2) {
            Some((y, c)) => (bin(BinOp::StartsWith, x, y), 2 + c),
            None => (x, 0),
        }
    } else if kw_at(ts, i, Keyword::Ends) && kw_at(ts, i + 1, Keyword::With) {
        match sp_add(ts, i + 2) {
            Some((y, c)) => (bin(BinOp::EndsWith, x, y), 2 + c),
            None => (x, 0),
        }
    } else if kw_at(ts, i, Keyword::Contains) {
        match sp_add(ts, i + 1) {
            Some((y, c)) => (bin(BinOp::Contains, x, y), 1 + c),
            None => (x, 0),
        }
    } else if kw_at(ts, i, Keyword::Is) && kw_at(ts, i + 1, Keyword::Not) && kw_at(
        ts,
        i + 2,
        Keyword::Null,
    ) {
        (un(UnOp::IsNotNull, x), 3)
    } else if kw_at(ts, i, Keyword::Is) && kw_at(ts, i + 1, Keyword::Null) {
        (un(UnOp::IsNull, x), 2)
    } else {
        (x, 0)
    }
}

pub closed spec fn sp_add(ts: Seq<SToken>, i: nat) -> Option<(SExpr, nat)>
    decreases rem(ts, i), 30nat,
{
    match sp_mul(ts, i) {
        None => None,
        Some((x, c)) => {
            let (e, d) = sp_add_tail(ts, i + c, x);
            Some((e, c + d))
        },
    }
}

pub closed spec fn sp_add_tail(ts: Seq<SToken>, i: nat, acc: SExpr) -> (SExpr, nat)
    decreases rem(ts, i), 29nat,
{
    if add_op_at(ts, i) is Some {
        match sp_mul(ts, i + 1) {
            Some((y, c)) => {
                let (e, d) = sp_add_tail(
                    ts,
                    i + 1 + c,
                    bin(add_op_at(ts, i)->0, acc, y),
                );
                (e, 1 + c + d)
            },
            None => (acc, 0),
        }
    } else {
        (acc, 0)
    }
}

pub closed spec fn sp_mul(ts: Seq<SToken>, i: nat) -> Option<(SExpr, nat)>
    decreases rem(ts, i), 28nat,
{
    match sp_unary(ts, i) {
        None => None,
        Some((x, c)) => {
            let (e, d) = sp_mul_tail(ts, i + c, x);
            Some((e, c + d))
        },
    }
}

pub closed spec fn sp_mul_tail(ts: Seq<SToken>, i: nat, acc: SExpr) -> (SExpr, nat)
    decreases rem(ts, i), 27nat,
{
    if mul_op_at(ts, i) is Some {
        match sp_unary(ts, i + 1) {
            Some((y, c)) => {
                let (e, d) = sp_mul_tail(
                    ts,
                    i + 1 + c,
                    bin(mul_op_at(ts, i)->0, acc, y),
                );
                (e, 1 + c + d)
            },
            None => (acc, 0),
        }
    } else {
        (acc, 0)
    }
}

pub closed spec fn sp_unary(ts: Seq<SToken>, i: nat) -> Option<(SExpr, nat)>
    decreases rem(ts, i), 26nat,
{
    if sym_at(ts, i, Symbol::Dash) {
        match sp_unary(ts, i + 1) {
            Some((x, c)) => Some((un(UnOp::Neg, x), 1 + c)),
            None => None,
        }
    } else {
        sp_postfix(ts, i)
    }
}

pub closed spec fn sp_postfix(ts: Seq<SToken>, i: nat) -> Option<(SExpr, nat)>
    decreases rem(ts, i), 25nat,
{
    match sp_atom(ts, i) {
        None => None,
        Some((x, c)) => {
            let (e, d) = sp_postfix_tail(ts, i + c, x);
            Some((e, c + d))
        },
    }
}

pub closed spec fn sp_postfix_tail(ts: Seq<SToken>, i: nat, acc: SExpr) -> (SExpr, nat)
    decreases rem(ts, i),
{
    if sym_at(ts, i, Symbol::Dot) && ident_at(ts, i + 1) is Some {
        let (e, d) = sp_postfix_tail(
            ts,
            i + 2,
            SExpr::Prop(Box::new(acc), ident_at(ts, i + 1)->0),
        );
        (e, 2 + d)
    } else {
        (acc, 0)
    }
}

pub closed spec fn sp_atom(ts: Seq<SToken>, i: nat) -> Option<(SExpr, nat)>
    decreases rem(ts, i), 24nat,
{
    if i >= ts.len() {
        None
    } else {
        match ts[i as int] {
            SToken::Param(p) => Some((SExpr::Param(p), 1)),
            SToken::Int(v) => Some((SExpr::Lit(SLiteral::Int(v)), 1)),
            SToken::BigInt(_) => Some((SExpr::Lit(SLiteral::Int(0)), 1)),
            SToken::Float(f) => Some((SExpr::Lit(SLiteral::Float(f)), 1)),
            SToken::Str(s) => Some((SExpr::Lit(SLiteral::Str(s)), 1)),
            SToken::Ident(n) => Some((SExpr::Var(n), 1)),
            SToken::Kw(Keyword::True) => Some((SExpr::Lit(SLiteral::Bool(true)), 1)),
            SToken::Kw(Keyword::False) => Some((SExpr::Lit(SLiteral::Bool(false)), 1)),
            SToken::Kw(Keyword::Null) => Some((SExpr::Lit(SLiteral::Null), 1)),
            SToken::Sym(Symbol::LBracket) => if sym_at(ts, i + 1, Symbol::RBracket) {
                Some((SExpr::List(Seq::empty()), 2))
            } else {
                match sp_expr(ts, i + 1) {
                    Some((e, c)) => match sp_list_rest(ts, i + 1 + c, seq![e]) {
                        Some((items, d)) => Some((SExpr::List(items), 1 + c + d)),
                        None => None,
                    },
                    None => None,
                }
            },
            SToken::Sym(Symbol::LBrace) => match sp_map_body(ts, i + 1) {
                Some((entries, c)) => Some((SExpr::MapLit(entries), 1 + c)),
                None => None,
            },
            SToken::Sym(Symbol::LParen) => match sp_expr(ts, i + 1) {
                Some((e, c)) => if sym_at(ts, i + 1 + c, Symbol::RParen) {
                    Some((e, 2 + c))
                } else {
                    None
                },
                None => None,
            },
            _ => None,
        }
    }
}

/// After the first element of a list: `(',' expr)* ']'`.
pub closed spec fn sp_list_rest(ts: Seq<SToken>, i: nat, acc: Seq<SExpr>) -> Option<(Seq<SExpr>, nat)>
    decreases rem(ts, i), 23nat,
{
    if sym_at(ts, i, Symbol::RBracket) {
        Some((acc, 1))
    } else if sym_at(ts, i, Symbol::Comma) {
        match sp_expr(ts, i + 1) {
            Some((e, c)) => match sp_list_rest(ts, i + 1 + c, acc.push(e)) {
                Some((items, d)) => Some((items, 1 + c + d)),
                None => None,
            },
            None => None,
        }
    } else {
        None
    }
}

/// After `{`: the entries of a map and the closing `}`.
pub closed spec fn sp_map_body(ts: Seq<SToken>, i: nat) -> Option<(Seq<(Seq<char>, SExpr)>, nat)>
    decreases rem(ts, i), 22nat,
{
    if sym_at(ts, i, Symbol::RBrace) {
        Some((Seq::empty(), 1))
    } else {
        match sp_map_entry(ts, i) {
            Some((kv, c)) => match sp_map_rest(ts, i + c, seq![kv]) {
                Some((entries, d)) => Some((entries, c + d)),
                None => None,
            },
            None => None,
        }
    }
}

pub closed spec fn sp_map_entry(ts: Seq<SToken>, i: nat) -> Option<((Seq<char>, SExpr), nat)>
    decreases rem(ts, i), 21nat,
{
    if ident_at(ts, i) is Some && sym_at(ts, i + 1, Symbol::Colon) {
        match sp_expr(ts, i + 2) {
            Some((v, c)) => Some(((ident_at(ts, i)->0, v), 2 + c)),
            None => None,
        }
    } else {
        None
    }
}

pub closed spec fn sp_map_rest(ts: Seq<SToken>, i: nat, acc: Seq<(Seq<char>, SExpr)>) -> Option<
    (Seq<(Seq<char>, SExpr)>, nat),
>
    decreases rem(ts, i), 20nat,
{
    if sym_at(ts, i, Symbol::RBrace) {
        Some((acc, 1))
    } else if sym_at(ts, i, Symbol::Comma) {
        match sp_map_entry(ts, i + 1) {
            Some((kv, c)) => match sp_map_rest(ts, i + 1 + c, acc.push(kv)) {
                Some((entries, d)) => Some((entries, 1 + c + d)),
                None => None,
            },
            None => None,
        }
    } else {
        None
    }
}

// ---- clauses ---------------------------------------------------------------

/// `expr [AS ident]`
pub closed spec fn sp_item(ts: Seq<SToken>, i: nat) -> Option<(SItem, nat)> {
    match sp_expr(ts, i) {
        None => None,
        Some((e, c)) => if kw_at(ts, i + c, Keyword::As) && ident_at(ts, i + c + 1) is Some {
            Some((SItem { expr: e, alias: ident_at(ts, i + c + 1) }, c + 2))
        } else {
            Some((SItem { expr: e, alias: None }, c))
        },
    }
}

/// `(',' item)*`
pub closed spec fn sp_items_rest(ts: Seq<SToken>, i: nat, acc: Seq<SItem>) -> (Seq<SItem>, nat)
    decreases rem(ts, i),
{
    if sym_at(ts, i, Symbol::Comma) {
        match sp_item(ts, i + 1) {
            Some((it, c)) => {
                let (items, d) = sp_items_rest(ts, i + 1 + c, acc.push(it));
                (items, 1 + c + d)
            },
            None => (acc, 0),
        }
    } else {
        (acc, 0)
    }
}

/// `[DISTINCT] item (',' item)*`
pub closed spec fn sp_projection(ts: Seq<SToken>, i: nat) -> Option<(SProjection, nat)> {
    let distinct = kw_at(ts, i, Keyword::Distinct);
    let j: nat = if distinct { i + 1 } else { i };
    match sp_item(ts, j) {
        None => None,
        Some((it, c)) => {
            let (items, d) = sp_items_rest(ts, j + c, seq![it]);
            Some((SProjection { items, distinct }, (j - i) as nat + c + d))
        },
    }
}

/// `expr [ASC | ASCENDING | DESC | DESCENDING]`
pub closed spec fn sp_order_item(ts: Seq<SToken>, i: nat) -> Option<(SOrderItem, nat)> {
    match sp_expr(ts, i) {
        None => None,
        Some((e, c)) => if kw_at(ts, i + c, Keyword::Desc) || kw_at(
            ts,
            i + c,
            Keyword::Descending,
        ) {
            Some((SOrderItem { expr: e, desc: true }, c + 1))
        } else if kw_at(ts, i + c, Keyword::Asc) || kw_at(ts, i + c, Keyword::Ascending) {
            Some((SOrderItem { expr: e, desc: false }, c + 1))
        } else {
            Some((SOrderItem { expr: e, desc: false }, c))
        },
    }
}

pub closed spec fn sp_order_rest(ts: Seq<SToken>, i: nat, acc: Seq<SOrderItem>) -> (
    Seq<SOrderItem>,
    nat,
)
    decreases rem(ts, i),
{
    if sym_at(ts, i, Symbol::Comma) {
        match sp_order_item(ts, i + 1) {
            Some((it, c)) => {
                let (items, d) = sp_order_rest(ts, i + 1 + c, acc.push(it));
                (items, 1 + c + d)
            },
            None => (acc, 0),
        }
    } else {
        (acc, 0)
    }
}

/// `(',' expr)*`
pub closed spec fn sp_exprs_rest(ts: Seq<SToken>, i: nat, acc: Seq<SExpr>) -> (Seq<SExpr>, nat)
    decreases rem(ts, i),
{
    if sym_at(ts, i, Symbol::Comma) {
        match sp_expr(ts, i + 1) {
            Some((e, c)) => {
                let (items, d) = sp_exprs_rest(ts, i + 1 + c, acc.push(e));
                (items, 1 + c + d)
            },
            None => (acc, 0),
        }
    } else {
        (acc, 0)
    }
}

/// `expr (',' expr)*`
pub closed spec fn sp_exprs(ts: Seq<SToken>, i: nat) -> Option<(Seq<SExpr>, nat)> {
    match sp_expr(ts, i) {
        None => None,
        Some((e, c)) => {
            let (items, d) = sp_exprs_rest(ts, i + c, seq![e]);
            Some((items, c + d))
        },
    }
}

// ---- patterns --------------------------------------------------------------

/// `(':' ident)*`
pub closed spec fn sp_labels(ts: Seq<SToken>, i: nat, acc: Seq<Seq<char>>) -> (Seq<Seq<char>>, nat)
    decreases rem(ts, i),
{
    if sym_at(ts, i, Symbol::Colon) && ident_at(ts, i + 1) is Some {
        let (ls, d) = sp_labels(ts, i + 2, acc.push(ident_at(ts, i + 1)->0));
        (ls, 2 + d)
    } else {
        (acc, 0)
    }
}

/// `('|' [':'] ident)*`
pub closed spec fn sp_types_rest(ts: Seq<SToken>, i: nat, acc: Seq<Seq<char>>) -> (
    Seq<Seq<char>>,
    nat,
)
    decreases rem(ts, i),
{
    if sym_at(ts, i, Symbol::Pipe) && sym_at(ts, i + 1, Symbol::Colon) && ident_at(ts, i + 2) is Some {
        let (tys, d) = sp_types_rest(ts, i + 3, acc.push(ident_at(ts, i + 2)->0));
        (tys, 3 + d)
    } else if sym_at(ts, i, Symbol::Pipe) && ident_at(ts, i + 1) is Some {
        let (tys, d) = sp_types_rest(ts, i + 2, acc.push(ident_at(ts, i + 1)->0));
        (tys, 2 + d)
    } else {
        (acc, 0)
    }
}

/// `[':' ident ('|' [':'] ident)*]`
pub closed spec fn sp_types(ts: Seq<SToken>, i: nat) -> (Seq<Seq<char>>, nat) {
    if sym_at(ts, i, Symbol::Colon) && ident_at(ts, i + 1) is Some {
        let (tys, d) = sp_types_rest(ts, i + 2, seq![ident_at(ts, i + 1)->0]);
        (tys, 2 + d)
    } else {
        (Seq::empty(), 0)
    }
}

/// `[ident]`
pub closed spec fn sp_opt_ident(ts: Seq<SToken>, i: nat) -> (Option<Seq<char>>, nat) {
    match ident_at(ts, i) {
        Some(v) => (Some(v), 1),
        None => (None, 0),
    }
}

/// `[map]` followed by the closing symbol `close`.
pub closed spec fn sp_props_close(ts: Seq<SToken>, i: nat, close: Symbol) -> Option<
    (Seq<(Seq<char>, SExpr)>, nat),
> {
    if sym_at(ts, i, Symbol::LBrace) {
        match sp_map_body(ts, i + 1) {
            Some((props, c)) => if sym_at(ts, i + 1 + c, close) {
                Some((props, 2 + c))
            } else {
                None
            },
            None => None,
        }
    } else if sym_at(ts, i, close) {
        Some((Seq::empty(), 1))
    } else {
        None
    }
}

/// `'(' [ident] (':' ident)* [map] ')'`
pub closed spec fn sp_node(ts: Seq<SToken>, i: nat) -> Option<(SNode, nat)> {
    if sym_at(ts, i, Symbol::LParen) {
        let (var, a) = sp_opt_ident(ts, i + 1);
        let (labels, b) = sp_labels(ts, i + 1 + a, Seq::empty());
        match sp_props_close(ts, i + 1 + a + b, Symbol::RParen) {
            Some((props, c)) => Some((SNode { var, labels, props }, 1 + a + b + c)),
            None => None,
        }
    } else {
        None
    }
}

/// `'[' [ident] [types] [map] ']'`
pub closed spec fn sp_detail(ts: Seq<SToken>, i: nat) -> Option<
    ((Option<Seq<char>>, Seq<Seq<char>>, Seq<(Seq<char>, SExpr)>), nat),
> {
    if sym_at(ts, i, Symbol::LBracket) {
        let (var, a) = sp_opt_ident(ts, i + 1);
        let (types, b) = sp_types(ts, i + 1 + a);
        match sp_props_close(ts, i + 1 + a + b, Symbol::RBracket) {
            Some((props, c)) => Some(((var, types, props), 1 + a + b + c)),
            None => None,
        }
    } else {
        None
    }
}

/// `[detail]`
pub closed spec fn sp_opt_detail(ts: Seq<SToken>, i: nat) -> (
    (Option<Seq<char>>, Seq<Seq<char>>, Seq<(Seq<char>, SExpr)>),
    nat,
) {
    match sp_detail(ts, i) {
        Some((d, c)) => (d, c),
        None => ((None, Seq::empty(), Seq::empty()), 0),
    }
}

pub open spec fn mk_rel(
    d: (Option<Seq<char>>, Seq<Seq<char>>, Seq<(Seq<char>, SExpr)>),
    direction: Direction,
) -> SRel {
    SRel { var: d.0, direction, types: d.1, props: d.2 }
}

/// A relationship after its first symbol (`<` when `left`, else `-`).
pub closed spec fn sp_rel_rest(ts: Seq<SToken>, i: nat, left: bool) -> Option<(SRel, nat)> {
    if left {
        if sym_at(ts, i, Symbol::Dash) {
            let (d, a) = sp_opt_detail(ts, i + 1);
            if sym_at(ts, i + 1 + a, Symbol::Dash) {
                Some((mk_rel(d, Direction::Incoming), 2 + a))
            } else {
                None
            }
        } else {
            None
        }
    } else {
        let (d, a) = sp_opt_detail(ts, i);
        if sym_at(ts, i + a, Symbol::Dash) {
            if sym_at(ts, i + a + 1, Symbol::Gt) {
                Some((mk_rel(d, Direction::Outgoing), a + 2))
            } else {
                Some((mk_rel(d, Direction::Undirected), a + 1))
            }
        } else {
            None
        }
    }
}

/// `(rel node)*`
pub closed spec fn sp_chains(ts: Seq<SToken>, i: nat, acc: Seq<SChain>) -> (Seq<SChain>, nat)
    decreases rem(ts, i),
{
    if sym_at(ts, i, Symbol::Lt) || sym_at(ts, i, Symbol::Dash) {
        match sp_rel_rest(ts, i + 1, sym_at(ts, i, Symbol::Lt)) {
            Some((rel, a)) => match sp_node(ts, i + 1 + a) {
                Some((node, b)) => {
                    let (chain, d) = sp_chains(
                        ts,
                        i + 1 + a + b,
                        acc.push(SChain { rel, node }),
                    );
                    (chain, 1 + a + b + d)
                },
                None => (acc, 0),
            },
            None => (acc, 0),
        }
    } else {
        (acc, 0)
    }
}

pub closed spec fn sp_pattern(ts: Seq<SToken>, i: nat) -> Option<(SPattern, nat)> {
    match sp_node(ts, i) {
        None => None,
        Some((anchor, a)) => {
            let (chain, b) = sp_chains(ts, i + a, Seq::empty());
            Some((SPattern { anchor, chain }, a + b))
        },
    }
}

pub closed spec fn sp_patterns_rest(ts: Seq<SToken>, i: nat, acc: Seq<SPattern>) -> (
    Seq<SPattern>,
    nat,
)
    decreases rem(ts, i),
{
    if sym_at(ts, i, Symbol::Comma) {
        match sp_pattern(ts, i + 1) {
            Some((p, c)) => {
                let (ps, d) = sp_patterns_rest(ts, i + 1 + c, acc.push(p));
                (ps, 1 + c + d)
            },
            None => (acc, 0),
        }
    } else {
        (acc, 0)
    }
}

/// `pattern (',' pattern)*`
pub closed spec fn sp_patterns(ts: Seq<SToken>, i: nat) -> Option<(Seq<SPattern>, nat)> {
    match sp_pattern(ts, i) {
        None => None,
        Some((p, c)) => {
            let (ps, d) = sp_patterns_rest(ts, i + c, seq![p]);
            Some((ps, c + d))
        },
    }
}

/// A clause after its first keyword `k`.
pub closed spec fn sp_clause_body(ts: Seq<SToken>, k: Keyword, i: nat) -> Option<(SClause, nat)> {
    match k {
        Keyword::Optional => if kw_at(ts, i, Keyword::Match) {
            match sp_patterns(ts, i + 1) {
                Some((ps, c)) => Some((SClause::Match(SMatch { optional: true, patterns: ps }), 1 + c)),
                None => None,
            }
        } else {
            None
        },
        Keyword::Match => match sp_patterns(ts, i) {
            Some((ps, c)) => Some((SClause::Match(SMatch { optional: false, patterns: ps }), c)),
            None => None,
        },
        Keyword::Where => match sp_expr(ts, i) {
            Some((e, c)) => Some((SClause::Where(e), c)),
            None => None,
        },
        Keyword::With => match sp_projection(ts, i) {
            Some((p, c)) => Some((SClause::With(p), c)),
            None => None,
        },
        Keyword::Return => match sp_projection(ts, i) {
            Some((p, c)) => Some((SClause::Return(p), c)),
            None => None,
        },
        Keyword::Order => if kw_at(ts, i, Keyword::By) {
            match sp_order_item(ts, i + 1) {
                Some((it, c)) => {
                    let (items, d) = sp_order_rest(ts, i + 1 + c, seq![it]);
                    Some((SClause::OrderBy(items), 1 + c + d))
                },
                None => None,
            }
        } else {
            None
        },
        Keyword::Skip => match sp_expr(ts, i) {
            Some((e, c)) => Some((SClause::Skip(e), c)),
            None => None,
        },
        Keyword::Limit => match sp_expr(ts, i) {
            Some((e, c)) => Some((SClause::Limit(e), c)),
            None => None,
        },
        Keyword::Unwind => match sp_expr(ts, i) {
            Some((e, c)) => if kw_at(ts, i + c, Keyword::As) && ident_at(ts, i + c + 1) is Some {
                Some((SClause::Unwind(e, ident_at(ts, i + c + 1)->0), c + 2))
            } else {
                None
            },
            None => None,
        },
        Keyword::Detach => if kw_at(ts, i, Keyword::Delete) {
            match sp_exprs(ts, i + 1) {
                Some((es, c)) => Some((SClause::Delete(true, es), 1 + c)),
                None => None,
            }
        } else {
            None
        },
        Keyword::Delete => match sp_exprs(ts, i) {
            Some((es, c)) => Some((SClause::Delete(false, es), c)),
            None => None,
        },
        _ => None,
    }
}

/// `clause*`: the clauses and the number of tokens they take.
pub closed spec fn sp_clauses(ts: Seq<SToken>, i: nat) -> (Seq<SClause>, nat)
    decreases rem(ts, i),
{
    if i < ts.len() && ts[i as int] is Kw {
        match sp_clause_body(ts, ts[i as int]->Kw_0, i + 1) {
            Some((cl, c)) => {
                let (rest, d) = sp_clauses(ts, i + 1 + c);
                (seq![cl] + rest, 1 + c + d)
            },
            None => (Seq::empty(), 0),
        }
    } else {
        (Seq::empty(), 0)
    }
}

/// Text of the first integer literal that does not fit in an `i64`.
pub open spec fn first_big_int(ts: Seq<SToken>) -> Option<Seq<char>>
    decreases ts.len(),
{
    if ts.len() == 0 {
        None
    } else {
        match ts[0] {
            SToken::BigInt(t) => Some(t),
            _ => first_big_int(ts.subrange(1, ts.len() as int)),
        }
    }
}

/// What parsing the text `s` gives.
pub open spec fn spec_parse(s: Seq<char>) -> Result<SQuery, SParseError> {
    match spec_tokenize(s) {
        Err(p) => Err(SParseError::Syntax(p)),
        Ok(pairs) => {
            let ts = pairs.map_values(|p: (SToken, nat)| p.0);
            let (clauses, c) = sp_clauses(ts, 0);
            if c < ts.len() {
                Err(SParseError::Syntax(pairs[c as int].1))
            } else if c > ts.len() {
                Err(SParseError::Syntax(s.len()))
            } else {
                match first_big_int(ts) {
                    Some(t) => Err(SParseError::InvalidInt(t)),
                    None => Ok(SQuery { clauses }),
                }
            }
        },
    }
}

/// The letter case of keywords does not change what a text parses to:
/// when `t` differs from `s` only in the case of letters inside keywords,
/// both give the same query, or the same error.
pub proof fn lemma_keyword_case_keeps_parse(s: Seq<char>, t: Seq<char>)
    requires
        keyword_case_variant(s, t),
    ensures
        spec_parse(t) == spec_parse(s),
{
    lemma_keyword_case_keeps_tokens(s, t);
}

/// `+` and `-` between operands build an addition and a subtraction, and
/// the chain goes on from the new left operand.
pub proof fn lemma_additive_operators(ts: Seq<SToken>, i: nat, acc: SExpr, y: SExpr, c: nat)
    requires
        sp_mul(ts, i + 1) == Some((y, c)),
    ensures
        sym_at(ts, i, Symbol::Plus) ==> sp_add_tail(ts, i, acc) == ({ let t = sp_add_tail(ts, (i + 1 + c) as nat, bin(BinOp::Add, acc, y)); (t.0, 1 + c + t.1) }),
        sym_at(ts, i, Symbol::Dash) ==> sp_add_tail(ts, i, acc) == ({ let t = sp_add_tail(ts, (i + 1 + c) as nat, bin(BinOp::Sub, acc, y)); (t.0, 1 + c + t.1) }),
{
}

/// `*`, `/` and `%` between operands build a product, a quotient and a
/// remainder, and the chain goes on from the new left operand.
pub proof fn lemma_multiplicative_operators(ts: Seq<SToken>, i: nat, acc: SExpr, y: SExpr, c: nat)
    requires
        sp_unary(ts, i + 1) == Some((y, c)),
    ensures
        sym_at(ts, i, Symbol::Star) ==> sp_mul_tail(ts, i, acc) == ({ let t = sp_mul_tail(ts, (i + 1 + c) as nat, bin(BinOp::Mul, acc, y)); (t.0, 1 + c + t.1) }),
        sym_at(ts, i, Symbol::Slash) ==> sp_mul_tail(ts, i, acc) == ({ let t = sp_mul_tail(ts, (i + 1 + c) as nat, bin(BinOp::Div, acc, y)); (t.0, 1 + c + t.1) }),
        sym_at(ts, i, Symbol::Percent) ==> sp_mul_tail(ts, i, acc) == ({ let t = sp_mul_tail(ts, (i + 1 + c) as nat, bin(BinOp::Mod, acc, y)); (t.0, 1 + c + t.1) }),
{
}

/// Each comparison symbol, and `IN` and `CONTAINS`, between two operands
/// builds the comparison it names.
pub proof fn lemma_comparison_operators(ts: Seq<SToken>, i: nat, x: SExpr, y: SExpr, c: nat)
    requires
        sp_add(ts, i + 1) == Some((y, c)),
    ensures
        sym_at(ts, i, Symbol::Eq) ==> sp_comparison_tail(ts, i, x) == (bin(BinOp::Eq, x, y), 1 + c),
        sym_at(ts, i, Symbol::Neq) ==> sp_comparison_tail(ts, i, x) == (bin(BinOp::Neq, x, y), 1 + c),
        sym_at(ts, i, Symbol::Lt) ==> sp_comparison_tail(ts, i, x) == (bin(BinOp::Lt, x, y), 1 + c),
        sym_at(ts, i, Symbol::Lte) ==> sp_comparison_tail(ts, i, x) == (bin(BinOp::Lte, x, y), 1 + c),
        sym_at(ts, i, Symbol::Gt) ==> sp_comparison_tail(ts, i, x) == (bin(BinOp::Gt, x, y), 1 + c),
        sym_at(ts, i, Symbol::Gte) ==> sp_comparison_tail(ts, i, x) == (bin(BinOp::Gte, x, y), 1 + c),
        kw_at(ts, i, Keyword::In) ==> sp_comparison_tail(ts, i, x) == (bin(BinOp::In, x, y), 1 + c),
        kw_at(ts, i, Keyword::Contains) ==> sp_comparison_tail(ts, i, x) == (
            bin(BinOp::Contains, x, y),
            1 + c,
        ),
{
}

/// `STARTS WITH` and `ENDS WITH` between two operands build the string
/// predicates they name.
pub proof fn lemma_string_predicates(ts: Seq<SToken>, i: nat, x: SExpr, y: SExpr, c: nat)
    requires
        sp_add(ts, i + 2) == Some((y, c)),
        kw_at(ts, i + 1, Keyword::With),
    ensures
        kw_at(ts, i, Keyword::Starts) ==> sp_comparison_tail(ts, i, x) == (
            bin(BinOp::StartsWith, x, y),
            2 + c,
        ),
        kw_at(ts, i, Keyword::Ends) ==> sp_comparison_tail(ts, i, x) == (
            bin(BinOp::EndsWith, x, y),
            2 + c,
        ),
{
}

/// `IS NULL` and `IS NOT NULL` after an operand test it for null.
pub proof fn lemma_null_tests(ts: Seq<SToken>, i: nat, x: SExpr)
    ensures
        kw_at(ts, i, Keyword::Is) && kw_at(ts, i + 1, Keyword::Null) ==> sp_comparison_tail(ts, i, x)
            == (un(UnOp::IsNull, x), 2nat),
        kw_at(ts, i, Keyword::Is) && kw_at(ts, i + 1, Keyword::Not) && kw_at(ts, i + 2, Keyword::Null)
            ==> sp_comparison_tail(ts, i, x) == (un(UnOp::IsNotNull, x), 3nat),
{
}

/// `AND`, `XOR` and `OR` between operands build a conjunction, an exclusive
/// and an inclusive disjunction.
pub proof fn lemma_boolean_operators(ts: Seq<SToken>, i: nat, acc: SExpr, y: SExpr, c: nat)
    ensures
        kw_at(ts, i, Keyword::And) && sp_not(ts, i + 1) == Some((y, c)) ==> sp_and_tail(ts, i, acc)
            == ({
            let t = sp_and_tail(ts, (i + 1 + c) as nat, bin(BinOp::And, acc, y));
            (t.0, 1 + c + t.1)
        }),
        kw_at(ts, i, Keyword::Xor) && sp_and(ts, i + 1) == Some((y, c)) ==> sp_xor_tail(ts, i, acc)
            == ({
            let t = sp_xor_tail(ts, (i + 1 + c) as nat, bin(BinOp::Xor, acc, y));
            (t.0, 1 + c + t.1)
        }),
        kw_at(ts, i, Keyword::Or) && sp_xor(ts, i + 1) == Some((y, c)) ==> sp_or_tail(ts, i, acc)
            == ({
            let t = sp_or_tail(ts, (i + 1 + c) as nat, bin(BinOp::Or, acc, y));
            (t.0, 1 + c + t.1)
        }),
{
}

/// `NOT` and a leading `-` before an operand negate it.
pub proof fn lemma_prefix_operators(ts: Seq<SToken>, i: nat, x: SExpr, c: nat)
    ensures
        kw_at(ts, i, Keyword::Not) && sp_not(ts, i + 1) == Some((x, c)) ==> sp_not(ts, i) == Some(
            (un(UnOp::Not, x), 1 + c),
        ),
        sym_at(ts, i, Symbol::Dash) && sp_unary(ts, i + 1) == Some((x, c)) ==> sp_unary(ts, i)
            == Some((un(UnOp::Neg, x), 1 + c)),
{
}

/// A single token that is an operand stands for the value or variable it
/// spells.
pub proof fn lemma_operand_tokens(ts: Seq<SToken>, i: nat)
    requires
        i < ts.len(),
    ensures
        ts[i as int] matches SToken::Ident(n) ==> sp_atom(ts, i) == Some((SExpr::Var(n), 1nat)),
        ts[i as int] matches SToken::Param(n) ==> sp_atom(ts, i) == Some((SExpr::Param(n), 1nat)),
        ts[i as int] matches SToken::Int(v) ==> sp_atom(ts, i) == Some(
            (SExpr::Lit(SLiteral::Int(v)), 1nat),
        ),
        ts[i as int] matches SToken::Str(v) ==> sp_atom(ts, i) == Some(
            (SExpr::Lit(SLiteral::Str(v)), 1nat),
        ),
        ts[i as int] == SToken::Kw(Keyword::True) ==> sp_atom(ts, i) == Some(
            (SExpr::Lit(SLiteral::Bool(true)), 1nat),
        ),
        ts[i as int] == SToken::Kw(Keyword::False) ==> sp_atom(ts, i) == Some(
            (SExpr::Lit(SLiteral::Bool(false)), 1nat),
        ),
        ts[i as int] == SToken::Kw(Keyword::Null) ==> sp_atom(ts, i) == Some(
            (SExpr::Lit(SLiteral::Null), 1nat),
        ),
{
}

/// The keyword that opens a clause decides its kind: `WHERE`, `SKIP` and
/// `LIMIT` take an expression, `WITH` and `RETURN` a projection, `MATCH`
/// and `OPTIONAL MATCH` patterns, `DELETE` and `DETACH DELETE` expressions.
#[verifier::rlimit(40)]
pub proof fn lemma_clause_keywords(ts: Seq<SToken>, i: nat)
    ensures
        sp_expr(ts, i) matches Some((e, c)) ==> sp_clause_body(ts, Keyword::Where, i) == Some(
            (SClause::Where(e), c),
        ) && sp_clause_body(ts, Keyword::Skip, i) == Some((SClause::Skip(e), c))
            && sp_clause_body(ts, Keyword::Limit, i) == Some((SClause::Limit(e), c)),
        sp_projection(ts, i) matches Some((p, c)) ==> sp_clause_body(ts, Keyword::With, i) == Some(
            (SClause::With(p), c),
        ) && sp_clause_body(ts, Keyword::Return, i) == Some((SClause::Return(p), c)),
        sp_patterns(ts, i) matches Some((ps, c)) ==> sp_clause_body(ts, Keyword::Match, i) == Some(
            (SClause::Match(SMatch { optional: false, patterns: ps }), c),
        ),
        sp_patterns(ts, i + 1) matches Some((ps, c)) ==> (kw_at(ts, i, Keyword::Match)
            ==> sp_clause_body(ts, Keyword::Optional, i) == Some(
            (SClause::Match(SMatch { optional: true, patterns: ps }), 1 + c),
        )),
        sp_exprs(ts, i) matches Some((es, c)) ==> sp_clause_body(ts, Keyword::Delete, i) == Some(
            (SClause::Delete(false, es), c),
        ),
        sp_exprs(ts, i + 1) matches Some((es, c)) ==> (kw_at(ts, i, Keyword::Delete)
            ==> sp_clause_body(ts, Keyword::Detach, i) == Some((SClause::Delete(true, es), 1 + c))),
{
}

/// `DESC` and `DESCENDING` after a sort key sort it in descending order;
/// `ASC`, `ASCENDING` or nothing in ascending order.
pub proof fn lemma_sort_directions(ts: Seq<SToken>, i: nat, e: SExpr, c: nat)
    requires
        sp_expr(ts, i) == Some((e, c)),
    ensures
        kw_at(ts, i + c, Keyword::Desc) || kw_at(ts, i + c, Keyword::Descending) ==> sp_order_item(
            ts,
            i,
        ) == Some((SOrderItem { expr: e, desc: true }, c + 1)),
        kw_at(ts, i + c, Keyword::Asc) || kw_at(ts, i + c, Keyword::Ascending) ==> sp_order_item(
            ts,
            i,
        ) == Some((SOrderItem { expr: e, desc: false }, c + 1)),
        sp_order_item(ts, i) matches Some((it, _)) && it.desc ==> kw_at(ts, i + c, Keyword::Desc)
            || kw_at(ts, i + c, Keyword::Descending),
{
}

/// `<-[..]-` is an incoming relationship, `-[..]->` an outgoing one and
/// `-[..]-` an undirected one.
pub proof fn lemma_relationship_directions(ts: Seq<SToken>, i: nat)
    ensures
        sym_at(ts, i, Symbol::Dash) && sym_at(ts, i + 1 + sp_opt_detail(ts, i + 1).1, Symbol::Dash)
            ==> sp_rel_rest(ts, i, true) == Some(
            (
                mk_rel(sp_opt_detail(ts, i + 1).0, Direction::Incoming),
                2 + sp_opt_detail(ts, i + 1).1,
            ),
        ),
        sym_at(ts, i + sp_opt_detail(ts, i).1, Symbol::Dash) && sym_at(
            ts,
            i + sp_opt_detail(ts, i).1 + 1,
            Symbol::Gt,
        ) ==> sp_rel_rest(ts, i, false) == Some(
            (mk_rel(sp_opt_detail(ts, i).0, Direction::Outgoing), sp_opt_detail(ts, i).1 + 2),
        ),
        sym_at(ts, i + sp_opt_detail(ts, i).1, Symbol::Dash) && !sym_at(
            ts,
            i + sp_opt_detail(ts, i).1 + 1,
            Symbol::Gt,
        ) ==> sp_rel_rest(ts, i, false) == Some(
            (mk_rel(sp_opt_detail(ts, i).0, Direction::Undirected), sp_opt_detail(ts, i).1 + 1),
        ),
{
}

// ---- one step of each definition ------------------------------------------

pub proof fn unfold_sp_expr(ts: Seq<SToken>, i: nat)
    ensures
        sp_expr(ts, i) == ({
            let r: Option<(SExpr, nat)> = {
                sp_or(ts, i)
            };
            r
        }),
{
}

pub proof fn unfold_sp_or(ts: Seq<SToken>, i: nat)
    ensures
        sp_or(ts, i) == ({
            let r: Option<(SExpr, nat)> = {
                match sp_xor(ts, i) {
                    None => None,
                    Some((x, c)) => {
                        let (e, d) = sp_or_tail(ts, i + c, x);
                        Some((e, c + d))
                    },
                }
            };
            r
        }),
{
}

pub proof fn unfold_sp_or_tail(ts: Seq<SToken>, i: nat, acc: SExpr)
    ensures
        sp_or_tail(ts, i, acc) == ({
            let r: (SExpr, nat) = {
                if kw_at(ts, i, Keyword::Or) {
                    match sp_xor(ts, i + 1) {
                        Some((y, c)) => {
                            let (e, d) = sp_or_tail(ts, i + 1 + c, bin(BinOp::Or, acc, y));
                            (e, 1 + c + d)
                        },
                        None => (acc, 0),
                    }
                } else {
                    (acc, 0)
                }
            };
            r
        }),
{
}

pub proof fn unfold_sp_xor(ts: Seq<SToken>, i: nat)
    ensures
        sp_xor(ts, i) == ({
            let r: Option<(SExpr, nat)> = {
                match sp_and(ts, i) {
                    None => None,
                    Some((x, c)) => {
                        let (e, d) = sp_xor_tail(ts, i + c, x);
                        Some((e, c + d))
                    },
                }
            };
            r
        }),
{
}

pub proof fn unfold_sp_xor_tail(ts: Seq<SToken>, i: nat, acc: SExpr)
    ensures
        sp_xor_tail(ts, i, acc) == ({
            let r: (SExpr, nat) = {
                if kw_at(ts, i, Keyword::Xor) {
                    match sp_and(ts, i + 1) {
                        Some((y, c)) => {
                            let (e, d) = sp_xor_tail(ts, i + 1 + c, bin(BinOp::Xor, acc, y));
                            (e, 1 + c + d)
                        },
                        None => (acc, 0),
                    }
                } else {
                    (acc, 0)
                }
            };
            r
        }),
{
}

pub proof fn unfold_sp_and(ts: Seq<SToken>, i: nat)
    ensures
        sp_and(ts, i) == ({
            let r: Option<(SExpr, nat)> = {
                match sp_not(ts, i) {
                    None => None,
                    Some((x, c)) => {
                        let (e, d) = sp_and_tail(ts, i + c, x);
                        Some((e, c + d))
                    },
                }
            };
            r
        }),
{
}

pub proof fn unfold_sp_and_tail(ts: Seq<SToken>, i: nat, acc: SExpr)
    ensures
        sp_and_tail(ts, i, acc) == ({
            let r: (SExpr, nat) = {
                if kw_at(ts, i, Keyword::And) {
                    match sp_not(ts, i + 1) {
                        Some((y, c)) => {
                            let (e, d) = sp_and_tail(ts, i + 1 + c, bin(BinOp::And, acc, y));
                            (e, 1 + c + d)
                        },
                        None => (acc, 0),
                    }
                } else {
                    (acc, 0)
                }
            };
            r
        }),
{
}

pub proof fn unfold_sp_not(ts: Seq<SToken>, i: nat)
    ensures
        sp_not(ts, i) == ({
            let r: Option<(SExpr, nat)> = {
                if kw_at(ts, i, Keyword::Not) {
                    match sp_not(ts, i + 1) {
                        Some((x, c)) => Some((un(UnOp::Not, x), 1 + c)),
                        None => None,
                    }
                } else {
                    sp_comparison(ts, i)
                }
            };
            r
        }),
{
}

pub proof fn unfold_sp_comparison(ts: Seq<SToken>, i: nat)
    ensures
        sp_comparison(ts, i) == ({
            let r: Option<(SExpr, nat)> = {
                match sp_add(ts, i) {
                    None => None,
                    Some((x, c)) => {
                        let (e, d) = sp_comparison_tail(ts, i + c, x);
                        Some((e, c + d))
                    },
                }
            };
            r
        }),
{
}

pub proof fn unfold_sp_comparison_tail(ts: Seq<SToken>, i: nat, x: SExpr)
    ensures
        sp_comparison_tail(ts, i, x) == ({
            let r: (SExpr, nat) = {
                if comparison_op_at(ts, i) is Some {
                    match sp_add(ts, i + 1) {
                        Some((y, c)) => (bin(comparison_op_at(ts, i)->0, x, y), 1 + c),
                        None => (x, 0),
                    }
                } else if kw_at(ts, i, Keyword::In) {
                    match sp_add(ts, i + 1) {
                        Some((y, c)) => (bin(BinOp::In, x, y), 1 + c),
                        None => (x, 0),
                    }
                } else if kw_at(ts, i, Keyword::Starts) && kw_at(ts, i + 1, Keyword::With) {
                    match sp_add(ts, i + 2) {
                        Some((y, c)) => (bin(BinOp::StartsWith, x, y), 2 + c),
                        None => (x, 0),
                    }
                } else if kw_at(ts, i, Keyword::Ends) && kw_at(ts, i + 1, Keyword::With) {
                    match sp_add(ts, i + 2) {
                        Some((y, c)) => (bin(BinOp::EndsWith, x, y), 2 + c),
                        None => (x, 0),
                    }
                } else if kw_at(ts, i, Keyword::Contains) {
                    match sp_add(ts, i + 1) {
                        Some((y, c)) => (bin(BinOp::Contains, x, y), 1 + c),
                        None => (x, 0),
                    }
                } else if kw_at(ts, i, Keyword::Is) && kw_at(ts, i + 1, Keyword::Not) && kw_at(
                    ts,
                    i + 2,
                    Keyword::Null,
                ) {
                    (un(UnOp::IsNotNull, x), 3)
                } else if kw_at(ts, i, Keyword::Is) && kw_at(ts, i + 1, Keyword::Null) {
                    (un(UnOp::IsNull, x), 2)
                } else {
                    (x, 0)
                }
            };
            r
        }),
{
}

pub proof fn unfold_sp_add(ts: Seq<SToken>, i: nat)
    ensures
        sp_add(ts, i) == ({
            let r: Option<(SExpr, nat)> = {
                match sp_mul(ts, i) {
                    None => None,
                    Some((x, c)) => {
                        let (e, d) = sp_add_tail(ts, i + c, x);
                        Some((e, c + d))
                    },
                }
            };
            r
        }),
{
}

pub proof fn unfold_sp_add_tail(ts: Seq<SToken>, i: nat, acc: SExpr)
    ensures
        sp_add_tail(ts, i, acc) == ({
            let r: (SExpr, nat) = {
                if add_op_at(ts, i) is Some {
                    match sp_mul(ts, i + 1) {
                        Some((y, c)) => {
                            let (e, d) = sp_add_tail(
                                ts,
                                i + 1 + c,
                                bin(add_op_at(ts, i)->0, acc, y),
                            );
                            (e, 1 + c + d)
                        },
                        None => (acc, 0),
                    }
                } else {
                    (acc, 0)
                }
            };
            r
        }),
{
}

pub proof fn unfold_sp_mul(ts: Seq<SToken>, i: nat)
    ensures
        sp_mul(ts, i) == ({
            let r: Option<(SExpr, nat)> = {
                match sp_unary(ts, i) {
                    None => None,
                    Some((x, c)) => {
                        let (e, d) = sp_mul_tail(ts, i + c, x);
                        Some((e, c + d))
                    },
                }
            };
            r
        }),
{
}

pub proof fn unfold_sp_mul_tail(ts: Seq<SToken>, i: nat, acc: SExpr)
    ensures
        sp_mul_tail(ts, i, acc) == ({
            let r: (SExpr, nat) = {
                if mul_op_at(ts, i) is Some {
                    match sp_unary(ts, i + 1) {
                        Some((y, c)) => {
                            let (e, d) = sp_mul_tail(
                                ts,
                                i + 1 + c,
                                bin(mul_op_at(ts, i)->0, acc, y),
                            );
                            (e, 1 + c + d)
                        },
                        None => (acc, 0),
                    }
                } else {
                    (acc, 0)
                }
            };
            r
        }),
{
}

pub proof fn unfold_sp_unary(ts: Seq<SToken>, i: nat)
    ensures
        sp_unary(ts, i) == ({
            let r: Option<(SExpr, nat)> = {
                if sym_at(ts, i, Symbol::Dash) {
                    match sp_unary(ts, i + 1) {
                        Some((x, c)) => Some((un(UnOp::Neg, x), 1 + c)),
                        None => None,
                    }
                } else {
                    sp_postfix(ts, i)
                }
            };
            r
        }),
{
}

pub proof fn unfold_sp_postfix(ts: Seq<SToken>, i: nat)
    ensures
        sp_postfix(ts, i) == ({
            let r: Option<(SExpr, nat)> = {
                match sp_atom(ts, i) {
                    None => None,
                    Some((x, c)) => {
                        let (e, d) = sp_postfix_tail(ts, i + c, x);
                        Some((e, c + d))
                    },
                }
            };
            r
        }),
{
}

pub proof fn unfold_sp_postfix_tail(ts: Seq<SToken>, i: nat, acc: SExpr)
    ensures
        sp_postfix_tail(ts, i, acc) == ({
            let r: (SExpr, nat) = {
                if sym_at(ts, i, Symbol::Dot) && ident_at(ts, i + 1) is Some {
                    let (e, d) = sp_postfix_tail(
                        ts,
                        i + 2,
                        SExpr::Prop(Box::new(acc), ident_at(ts, i + 1)->0),
                    );
                    (e, 2 + d)
                } else {
                    (acc, 0)
                }
            };
            r
        }),
{
}

pub proof fn unfold_sp_atom(ts: Seq<SToken>, i: nat)
    ensures
        sp_atom(ts, i) == ({
            let r: Option<(SExpr, nat)> = {
                if i >= ts.len() {
                    None
                } else {
                    match ts[i as int] {
                        SToken::Param(p) => Some((SExpr::Param(p), 1)),
                        SToken::Int(v) => Some((SExpr::Lit(SLiteral::Int(v)), 1)),
                        SToken::BigInt(_) => Some((SExpr::Lit(SLiteral::Int(0)), 1)),
                        SToken::Float(f) => Some((SExpr::Lit(SLiteral::Float(f)), 1)),
                        SToken::Str(s) => Some((SExpr::Lit(SLiteral::Str(s)), 1)),
                        SToken::Ident(n) => Some((SExpr::Var(n), 1)),
                        SToken::Kw(Keyword::True) => Some((SExpr::Lit(SLiteral::Bool(true)), 1)),
                        SToken::Kw(Keyword::False) => Some((SExpr::Lit(SLiteral::Bool(false)), 1)),
                        SToken::Kw(Keyword::Null) => Some((SExpr::Lit(SLiteral::Null), 1)),
                        SToken::Sym(Symbol::LBracket) => if sym_at(ts, i + 1, Symbol::RBracket) {
                            Some((SExpr::List(Seq::empty()), 2))
                        } else {
                            match sp_expr(ts, i + 1) {
                                Some((e, c)) => match sp_list_rest(ts, i + 1 + c, seq![e]) {
                                    Some((items, d)) => Some((SExpr::List(items), 1 + c + d)),
                                    None => None,
                                },
                                None => None,
                            }
                        },
                        SToken::Sym(Symbol::LBrace) => match sp_map_body(ts, i + 1) {
                            Some((entries, c)) => Some((SExpr::MapLit(entries), 1 + c)),
                            None => None,
                        },
                        SToken::Sym(Symbol::LParen) => match sp_expr(ts, i + 1) {
                            Some((e, c)) => if sym_at(ts, i + 1 + c, Symbol::RParen) {
                                Some((e, 2 + c))
                            } else {
                                None
                            },
                            None => None,
                        },
                        _ => None,
                    }
                }
            };
            r
        }),
{
}

pub proof fn unfold_sp_list_rest(ts: Seq<SToken>, i: nat, acc: Seq<SExpr>)
    ensures
        sp_list_rest(ts, i, acc) == ({
            let r: Option<(Seq<SExpr>, nat)> = {
                if sym_at(ts, i, Symbol::RBracket) {
                    Some((acc, 1))
                } else if sym_at(ts, i, Symbol::Comma) {
                    match sp_expr(ts, i + 1) {
                        Some((e, c)) => match sp_list_rest(ts, i + 1 + c, acc.push(e)) {
                            Some((items, d)) => Some((items, 1 + c + d)),
                            None => None,
                        },
                        None => None,
                    }
                } else {
                    None
                }
            };
            r
        }),
{
}

pub proof fn unfold_sp_map_body(ts: Seq<SToken>, i: nat)
    ensures
        sp_map_body(ts, i) == ({
            let r: Option<(Seq<(Seq<char>, SExpr)>, nat)> = {
                if sym_at(ts, i, Symbol::RBrace) {
                    Some((Seq::empty(), 1))
                } else {
                    match sp_map_entry(ts, i) {
                        Some((kv, c)) => match sp_map_rest(ts, i + c, seq![kv]) {
                            Some((entries, d)) => Some((entries, c + d)),
                            None => None,
                        },
                        None => None,
                    }
                }
            };
            r
        }),
{
}

pub proof fn unfold_sp_map_entry(ts: Seq<SToken>, i: nat)
    ensures
        sp_map_entry(ts, i) == ({
            let r: Option<((Seq<char>, SExpr), nat)> = {
                if ident_at(ts, i) is Some && sym_at(ts, i + 1, Symbol::Colon) {
                    match sp_expr(ts, i + 2) {
                        Some((v, c)) => Some(((ident_at(ts, i)->0, v), 2 + c)),
                        None => None,
                    }
                } else {
                    None
                }
            };
            r
        }),
{
}

pub proof fn unfold_sp_map_rest(ts: Seq<SToken>, i: nat, acc: Seq<(Seq<char>, SExpr)>)
    ensures
        sp_map_rest(ts, i, acc) == ({
            let r: Option< (Seq<(Seq<char>, SExpr)>, nat), > = {
                if sym_at(ts, i, Symbol::RBrace) {
                    Some((acc, 1))
                } else if sym_at(ts, i, Symbol::Comma) {
                    match sp_map_entry(ts, i + 1) {
                        Some((kv, c)) => match sp_map_rest(ts, i + 1 + c, acc.push(kv)) {
                            Some((entries, d)) => Some((entries, 1 + c + d)),
                            None => None,
                        },
                        None => None,
                    }
                } else {
                    None
                }
            };
            r
        }),
{
}

pub proof fn unfold_sp_item(ts: Seq<SToken>, i: nat)
    ensures
        sp_item(ts, i) == ({
            let r: Option<(SItem, nat)> = {
                match sp_expr(ts, i) {
                    None => None,
                    Some((e, c)) => if kw_at(ts, i + c, Keyword::As) && ident_at(ts, i + c + 1) is Some {
                        Some((SItem { expr: e, alias: ident_at(ts, i + c + 1) }, c + 2))
                    } else {
                        Some((SItem { expr: e, alias: None }, c))
                    },
                }
            };
            r
        }),
{
}

pub proof fn unfold_sp_items_rest(ts: Seq<SToken>, i: nat, acc: Seq<SItem>)
    ensures
        sp_items_rest(ts, i, acc) == ({
            let r: (Seq<SItem>, nat) = {
                if sym_at(ts, i, Symbol::Comma) {
                    match sp_item(ts, i + 1) {
                        Some((it, c)) => {
                            let (items, d) = sp_items_rest(ts, i + 1 + c, acc.push(it));
                            (items, 1 + c + d)
                        },
                        None => (acc, 0),
                    }
                } else {
                    (acc, 0)
                }
            };
            r
        }),
{
}

pub proof fn unfold_sp_projection(ts: Seq<SToken>, i: nat)
    ensures
        sp_projection(ts, i) == ({
            let r: Option<(SProjection, nat)> = {
                let distinct = kw_at(ts, i, Keyword::Distinct);
                let j: nat = if distinct { i + 1 } else { i };
                match sp_item(ts, j) {
                    None => None,
                    Some((it, c)) => {
                        let (items, d) = sp_items_rest(ts, j + c, seq![it]);
                        Some((SProjection { items, distinct }, (j - i) as nat + c + d))
                    },
                }
            };
            r
        }),
{
}

pub proof fn unfold_sp_order_item(ts: Seq<SToken>, i: nat)
    ensures
        sp_order_item(ts, i) == ({
            let r: Option<(SOrderItem, nat)> = {
                match sp_expr(ts, i) {
                    None => None,
                    Some((e, c)) => if kw_at(ts, i + c, Keyword::Desc) || kw_at(
                        ts,
                        i + c,
                        Keyword::Descending,
                    ) {
                        Some((SOrderItem { expr: e, desc: true }, c + 1))
                    } else if kw_at(ts, i + c, Keyword::Asc) || kw_at(ts, i + c, Keyword::Ascending) {
                        Some((SOrderItem { expr: e, desc: false }, c + 1))
                    } else {
                        Some((SOrderItem { expr: e, desc: false }, c))
                    },
                }
            };
            r
        }),
{
}

pub proof fn unfold_sp_order_rest(ts: Seq<SToken>, i: nat, acc: Seq<SOrderItem>)
    ensures
        sp_order_rest(ts, i, acc) == ({
            let r: (Seq<SOrderItem>, nat,) = {
                if sym_at(ts, i, Symbol::Comma) {
                    match sp_order_item(ts, i + 1) {
                        Some((it, c)) => {
                            let (items, d) = sp_order_rest(ts, i + 1 + c, acc.push(it));
                            (items, 1 + c + d)
                        },
                        None => (acc, 0),
                    }
                } else {
                    (acc, 0)
                }
            };
            r
        }),
{
}

pub proof fn unfold_sp_exprs_rest(ts: Seq<SToken>, i: nat, acc: Seq<SExpr>)
    ensures
        sp_exprs_rest(ts, i, acc) == ({
            let r: (Seq<SExpr>, nat) = {
                if sym_at(ts, i, Symbol::Comma) {
                    match sp_expr(ts, i + 1) {
                        Some((e, c)) => {
                            let (items, d) = sp_exprs_rest(ts, i + 1 + c, acc.push(e));
                            (items, 1 + c + d)
                        },
                        None => (acc, 0),
                    }
                } else {
                    (acc, 0)
                }
            };
            r
        }),
{
}

pub proof fn unfold_sp_exprs(ts: Seq<SToken>, i: nat)
    ensures
        sp_exprs(ts, i) == ({
            let r: Option<(Seq<SExpr>, nat)> = {
                match sp_expr(ts, i) {
                    None => None,
                    Some((e, c)) => {
                        let (items, d) = sp_exprs_rest(ts, i + c, seq![e]);
                        Some((items, c + d))
                    },
                }
            };
            r
        }),
{
}

pub proof fn unfold_sp_labels(ts: Seq<SToken>, i: nat, acc: Seq<Seq<char>>)
    ensures
        sp_labels(ts, i, acc) == ({
            let r: (Seq<Seq<char>>, nat) = {
                if sym_at(ts, i, Symbol::Colon) && ident_at(ts, i + 1) is Some {
                    let (ls, d) = sp_labels(ts, i + 2, acc.push(ident_at(ts, i + 1)->0));
                    (ls, 2 + d)
                } else {
                    (acc, 0)
                }
            };
            r
        }),
{
}

pub proof fn unfold_sp_types_rest(ts: Seq<SToken>, i: nat, acc: Seq<Seq<char>>)
    ensures
        sp_types_rest(ts, i, acc) == ({
            let r: (Seq<Seq<char>>, nat,) = {
                if sym_at(ts, i, Symbol::Pipe) && sym_at(ts, i + 1, Symbol::Colon) && ident_at(ts, i + 2) is Some {
                    let (tys, d) = sp_types_rest(ts, i + 3, acc.push(ident_at(ts, i + 2)->0));
                    (tys, 3 + d)
                } else if sym_at(ts, i, Symbol::Pipe) && ident_at(ts, i + 1) is Some {
                    let (tys, d) = sp_types_rest(ts, i + 2, acc.push(ident_at(ts, i + 1)->0));
                    (tys, 2 + d)
                } else {
                    (acc, 0)
                }
            };
            r
        }),
{
}

pub proof fn unfold_sp_types(ts: Seq<SToken>, i: nat)
    ensures
        sp_types(ts, i) == ({
            let r: (Seq<Seq<char>>, nat) = {
                if sym_at(ts, i, Symbol::Colon) && ident_at(ts, i + 1) is Some {
                    let (tys, d) = sp_types_rest(ts, i + 2, seq![ident_at(ts, i + 1)->0]);
                    (tys, 2 + d)
                } else {
                    (Seq::empty(), 0)
                }
            };
            r
        }),
{
}

pub proof fn unfold_sp_opt_ident(ts: Seq<SToken>, i: nat)
    ensures
        sp_opt_ident(ts, i) == ({
            let r: (Option<Seq<char>>, nat) = {
                match ident_at(ts, i) {
                    Some(v) => (Some(v), 1),
                    None => (None, 0),
                }
            };
            r
        }),
{
}

pub proof fn unfold_sp_props_close(ts: Seq<SToken>, i: nat, close: Symbol)
    ensures
        sp_props_close(ts, i, close) == ({
            let r: Option< (Seq<(Seq<char>, SExpr)>, nat), > = {
                if sym_at(ts, i, Symbol::LBrace) {
                    match sp_map_body(ts, i + 1) {
                        Some((props, c)) => if sym_at(ts, i + 1 + c, close) {
                            Some((props, 2 + c))
                        } else {
                            None
                        },
                        None => None,
                    }
                } else if sym_at(ts, i, close) {
                    Some((Seq::empty(), 1))
                } else {
                    None
                }
            };
            r
        }),
{
}

pub proof fn unfold_sp_node(ts: Seq<SToken>, i: nat)
    ensures
        sp_node(ts, i) == ({
            let r: Option<(SNode, nat)> = {
                if sym_at(ts, i, Symbol::LParen) {
                    let (var, a) = sp_opt_ident(ts, i + 1);
                    let (labels, b) = sp_labels(ts, i + 1 + a, Seq::empty());
                    match sp_props_close(ts, i + 1 + a + b, Symbol::RParen) {
                        Some((props, c)) => Some((SNode { var, labels, props }, 1 + a + b + c)),
                        None => None,
                    }
                } else {
                    None
                }
            };
            r
        }),
{
}

pub proof fn unfold_sp_detail(ts: Seq<SToken>, i: nat)
    ensures
        sp_detail(ts, i) == ({
            let r: Option< ((Option<Seq<char>>, Seq<Seq<char>>, Seq<(Seq<char>, SExpr)>), nat), > = {
                if sym_at(ts, i, Symbol::LBracket) {
                    let (var, a) = sp_opt_ident(ts, i + 1);
                    let (types, b) = sp_types(ts, i + 1 + a);
                    match sp_props_close(ts, i + 1 + a + b, Symbol::RBracket) {
                        Some((props, c)) => Some(((var, types, props), 1 + a + b + c)),
                        None => None,
                    }
                } else {
                    None
                }
            };
            r
        }),
{
}

pub proof fn unfold_sp_opt_detail(ts: Seq<SToken>, i: nat)
    ensures
        sp_opt_detail(ts, i) == ({
            let r: ((Option<Seq<char>>, Seq<Seq<char>>, Seq<(Seq<char>, SExpr)>), nat,) = {
                match sp_detail(ts, i) {
                    Some((d, c)) => (d, c),
                    None => ((None, Seq::empty(), Seq::empty()), 0),
                }
            };
            r
        }),
{
}

pub proof fn unfold_sp_rel_rest(ts: Seq<SToken>, i: nat, left: bool)
    ensures
        sp_rel_rest(ts, i, left) == ({
            let r: Option<(SRel, nat)> = {
                if left {
                    if sym_at(ts, i, Symbol::Dash) {
                        let (d, a) = sp_opt_detail(ts, i + 1);
                        if sym_at(ts, i + 1 + a, Symbol::Dash) {
                            Some((mk_rel(d, Direction::Incoming), 2 + a))
                        } else {
                            None
                        }
                    } else {
                        None
                    }
                } else {
                    let (d, a) = sp_opt_detail(ts, i);
                    if sym_at(ts, i + a, Symbol::Dash) {
                        if sym_at(ts, i + a + 1, Symbol::Gt) {
                            Some((mk_rel(d, Direction::Outgoing), a + 2))
                        } else {
                            Some((mk_rel(d, Direction::Undirected), a + 1))
                        }
                    } else {
                        None
                    }
                }
            };
            r
        }),
{
}

pub proof fn unfold_sp_chains(ts: Seq<SToken>, i: nat, acc: Seq<SChain>)
    ensures
        sp_chains(ts, i, acc) == ({
            let r: (Seq<SChain>, nat) = {
                if sym_at(ts, i, Symbol::Lt) || sym_at(ts, i, Symbol::Dash) {
                    match sp_rel_rest(ts, i + 1, sym_at(ts, i, Symbol::Lt)) {
                        Some((rel, a)) => match sp_node(ts, i + 1 + a) {
                            Some((node, b)) => {
                                let (chain, d) = sp_chains(
                                    ts,
                                    i + 1 + a + b,
                                    acc.push(SChain { rel, node }),
                                );
                                (chain, 1 + a + b + d)
                            },
                            None => (acc, 0),
                        },
                        None => (acc, 0),
                    }
                } else {
                    (acc, 0)
                }
            };
            r
        }),
{
}

pub proof fn unfold_sp_pattern(ts: Seq<SToken>, i: nat)
    ensures
        sp_pattern(ts, i) == ({
            let r: Option<(SPattern, nat)> = {
                match sp_node(ts, i) {
                    None => None,
                    Some((anchor, a)) => {
                        let (chain, b) = sp_chains(ts, i + a, Seq::empty());
                        Some((SPattern { anchor, chain }, a + b))
                    },
                }
            };
            r
        }),
{
}

pub proof fn unfold_sp_patterns_rest(ts: Seq<SToken>, i: nat, acc: Seq<SPattern>)
    ensures
        sp_patterns_rest(ts, i, acc) == ({
            let r: (Seq<SPattern>, nat,) = {
                if sym_at(ts, i, Symbol::Comma) {
                    match sp_pattern(ts, i + 1) {
                        Some((p, c)) => {
                            let (ps, d) = sp_patterns_rest(ts, i + 1 + c, acc.push(p));
                            (ps, 1 + c + d)
                        },
                        None => (acc, 0),
                    }
                } else {
                    (acc, 0)
                }
            };
            r
        }),
{
}

pub proof fn unfold_sp_patterns(ts: Seq<SToken>, i: nat)
    ensures
        sp_patterns(ts, i) == ({
            let r: Option<(Seq<SPattern>, nat)> = {
                match sp_pattern(ts, i) {
                    None => None,
                    Some((p, c)) => {
                        let (ps, d) = sp_patterns_rest(ts, i + c, seq![p]);
                        Some((ps, c + d))
                    },
                }
            };
            r
        }),
{
}

pub proof fn unfold_sp_clause_body(ts: Seq<SToken>, k: Keyword, i: nat)
    ensures
        sp_clause_body(ts, k, i) == ({
            let r: Option<(SClause, nat)> = {
                match k {
                    Keyword::Optional => if kw_at(ts, i, Keyword::Match) {
                        match sp_patterns(ts, i + 1) {
                            Some((ps, c)) => Some((SClause::Match(SMatch { optional: true, patterns: ps }), 1 + c)),
                            None => None,
                        }
                    } else {
                        None
                    },
                    Keyword::Match => match sp_patterns(ts, i) {
                        Some((ps, c)) => Some((SClause::Match(SMatch { optional: false, patterns: ps }), c)),
                        None => None,
                    },
                    Keyword::Where => match sp_expr(ts, i) {
                        Some((e, c)) => Some((SClause::Where(e), c)),
                        None => None,
                    },
                    Keyword::With => match sp_projection(ts, i) {
                        Some((p, c)) => Some((SClause::With(p), c)),
                        None => None,
                    },
                    Keyword::Return => match sp_projection(ts, i) {
                        Some((p, c)) => Some((SClause::Return(p), c)),
                        None => None,
                    },
                    Keyword::Order => if kw_at(ts, i, Keyword::By) {
                        match sp_order_item(ts, i + 1) {
                            Some((it, c)) => {
                                let (items, d) = sp_order_rest(ts, i + 1 + c, seq![it]);
                                Some((SClause::OrderBy(items), 1 + c + d))
                            },
                            None => None,
                        }
                    } else {
                        None
                    },
                    Keyword::Skip => match sp_expr(ts, i) {
                        Some((e, c)) => Some((SClause::Skip(e), c)),
                        None => None,
                    },
                    Keyword::Limit => match sp_expr(ts, i) {
                        Some((e, c)) => Some((SClause::Limit(e), c)),
                        None => None,
                    },
                    Keyword::Unwind => match sp_expr(ts, i) {
                        Some((e, c)) => if kw_at(ts, i + c, Keyword::As) && ident_at(ts, i + c + 1) is Some {
                            Some((SClause::Unwind(e, ident_at(ts, i + c + 1)->0), c + 2))
                        } else {
                            None
                        },
                        None => None,
                    },
                    Keyword::Detach => if kw_at(ts, i, Keyword::Delete) {
                        match sp_exprs(ts, i + 1) {
                            Some((es, c)) => Some((SClause::Delete(true, es), 1 + c)),
                            None => None,
                        }
                    } else {
                        None
                    },
                    Keyword::Delete => match sp_exprs(ts, i) {
                        Some((es, c)) => Some((SClause::Delete(false, es), c)),
                        None => None,
                    },
                    _ => None,
                }
            };
            r
        }),
{
}

pub proof fn unfold_sp_clauses(ts: Seq<SToken>, i: nat)
    ensures
        sp_clauses(ts, i) == ({
            let r: (Seq<SClause>, nat) = {
                if i < ts.len() && ts[i as int] is Kw {
                    match sp_clause_body(ts, ts[i as int]->Kw_0, i + 1) {
                        Some((cl, c)) => {
                            let (rest, d) = sp_clauses(ts, i + 1 + c);
                            (seq![cl] + rest, 1 + c + d)
                        },
                        None => (Seq::empty(), 0),
                    }
                } else {
                    (Seq::empty(), 0)
                }
            };
            r
        }),
{
}

} // verus!
