//! Parser: the text of a query to a [`Query`].
use vstd::prelude::*;

use crate::ast;
use crate::ast::{
    BinOp, Clause, Direction, Expr, Literal, MatchClause, NodePattern, OrderItem, Pattern, Query,
    RelChain, RelPattern, ReturnClause, ReturnItem, SChain, SExpr, UnOp,
};
use crate::grammar;
use crate::text;
use crate::error::{ParseError, SParseError};
use crate::lexer::{token_pairs, tokenize, Keyword, SToken, Symbol, Token};

verus! {

// ---- the parser --------------------------------------------------------------

pub open spec fn agrees(r: Option<(Expr, usize)>, s: Option<(SExpr, nat)>, i: usize, n: nat) -> bool {
    match r {
        Some((e, c)) => s == Some((e@, c as nat)) && i + c <= n,
        None => s is None,
    }
}

pub open spec fn agrees_tail(r: (Expr, usize), s: (SExpr, nat), i: usize, n: nat) -> bool {
    r.0@ == s.0 && r.1 as nat == s.1 && i + r.1 <= n
}

proof fn lemma_tv_index(t: Seq<Token>, i: int)
    requires
        0 <= i < t.len(),
    ensures
        grammar::tv(t)[i] == t[i]@,
        grammar::tv(t).len() == t.len(),
{
}

fn kw_at_x(t: &Vec<Token>, i: usize, k: Keyword) -> (r: bool)
    ensures
        t.len() <= usize::MAX,
        r == grammar::kw_at(grammar::tv(t@), i as nat, k),
{
    let n = t.len();
    if i < n {
        proof {
            lemma_tv_index(t@, i as int);
        }
        match &t[i] {
            Token::Kw(k2) => *k2 == k,
            _ => false,
        }
    } else {
        false
    }
}

fn sym_at_x(t: &Vec<Token>, i: usize, s: Symbol) -> (r: bool)
    ensures
        t.len() <= usize::MAX,
        r == grammar::sym_at(grammar::tv(t@), i as nat, s),
{
    let n = t.len();
    if i < n {
        proof {
            lemma_tv_index(t@, i as int);
        }
        match &t[i] {
            Token::Sym(s2) => *s2 == s,
            _ => false,
        }
    } else {
        false
    }
}

fn ident_at_x(t: &Vec<Token>, i: usize) -> (r: Option<String>)
    ensures
        t.len() <= usize::MAX,
        ast::opt_str(r) == grammar::ident_at(grammar::tv(t@), i as nat),
{
    let n = t.len();
    if i < n {
        proof {
            lemma_tv_index(t@, i as int);
        }
        match &t[i] {
            Token::Ident(n) => Some(n.clone()),
            _ => None,
        }
    } else {
        None
    }
}

fn comparison_op_at_x(t: &Vec<Token>, i: usize) -> (r: Option<BinOp>)
    ensures
        t.len() <= usize::MAX,
        r == grammar::comparison_op_at(grammar::tv(t@), i as nat),
{
    let n = t.len();
    if i < n {
        proof {
            lemma_tv_index(t@, i as int);
        }
        match &t[i] {
            Token::Sym(Symbol::Eq) => Some(BinOp::Eq),
            Token::Sym(Symbol::Neq) => Some(BinOp::Neq),
            Token::Sym(Symbol::Lt) => Some(BinOp::Lt),
            Token::Sym(Symbol::Lte) => Some(BinOp::Lte),
            Token::Sym(Symbol::Gt) => Some(BinOp::Gt),
            Token::Sym(Symbol::Gte) => Some(BinOp::Gte),
            _ => None,
        }
    } else {
        None
    }
}

fn add_op_at_x(t: &Vec<Token>, i: usize) -> (r: Option<BinOp>)
    ensures
        t.len() <= usize::MAX,
        r == grammar::add_op_at(grammar::tv(t@), i as nat),
{
    let n = t.len();
    if i < n {
        proof {
            lemma_tv_index(t@, i as int);
        }
        match &t[i] {
            Token::Sym(Symbol::Plus) => Some(BinOp::Add),
            Token::Sym(Symbol::Dash) => Some(BinOp::Sub),
            _ => None,
        }
    } else {
        None
    }
}

fn mul_op_at_x(t: &Vec<Token>, i: usize) -> (r: Option<BinOp>)
    ensures
        t.len() <= usize::MAX,
        r == grammar::mul_op_at(grammar::tv(t@), i as nat),
{
    let n = t.len();
    if i < n {
        proof {
            lemma_tv_index(t@, i as int);
        }
        match &t[i] {
            Token::Sym(Symbol::Star) => Some(BinOp::Mul),
            Token::Sym(Symbol::Slash) => Some(BinOp::Div),
            Token::Sym(Symbol::Percent) => Some(BinOp::Mod),
            _ => None,
        }
    } else {
        None
    }
}

fn mk_bin(op: BinOp, l: Expr, r: Expr) -> (e: Expr)
    ensures
        e@ == grammar::bin(op, l@, r@),
{
    Expr::Binary { op, lhs: Box::new(l), rhs: Box::new(r) }
}

fn mk_un(op: UnOp, x: Expr) -> (e: Expr)
    ensures
        e@ == grammar::un(op, x@),
{
    Expr::Unary { op, operand: Box::new(x) }
}

fn parse_expr(t: &Vec<Token>, i: usize) -> (r: Option<(Expr, usize)>)
    requires
        i <= t.len(),
    ensures
        agrees(r, grammar::sp_expr(grammar::tv(t@), i as nat), i, t@.len()),
    decreases t.len() - i, 40nat,
{
    proof {
        grammar::unfold_sp_expr(grammar::tv(t@), i as nat);
    }
    parse_or(t, i)
}

#[verifier::rlimit(100)]
pub(crate) fn parse_or(t: &Vec<Token>, i: usize) -> (r: Option<(Expr, usize)>)
    requires
        i <= t.len(),
    ensures
        agrees(r, grammar::sp_or(grammar::tv(t@), i as nat), i, t@.len()),
    decreases t.len() - i, 39nat,
{
    proof {
        grammar::unfold_sp_or(grammar::tv(t@), i as nat);
    }
    match parse_xor(t, i) {
        None => None,
        Some((x, c)) => {
            let tail = parse_or_tail(t, i + c, x);
            Some((tail.0, c + tail.1))
        },
    }
}

fn parse_or_tail(t: &Vec<Token>, i: usize, acc: Expr) -> (r: (Expr, usize))
    requires
        i <= t.len(),
    ensures
        agrees_tail(r, grammar::sp_or_tail(grammar::tv(t@), i as nat, acc@), i, t@.len()),
    decreases t.len() - i, 38nat,
{
    proof {
        grammar::unfold_sp_or_tail(grammar::tv(t@), i as nat, acc@);
    }
    if kw_at_x(t, i, Keyword::Or) {
        match parse_xor(t, i + 1) {
            Some((y, c)) => {
                let (e, d) = parse_or_tail(t, i + 1 + c, mk_bin(BinOp::Or, acc, y));
                (e, 1 + c + d)
            },
            None => (acc, 0),
        }
    } else {
        (acc, 0)
    }
}

fn parse_xor(t: &Vec<Token>, i: usize) -> (r: Option<(Expr, usize)>)
    requires
        i <= t.len(),
    ensures
        agrees(r, grammar::sp_xor(grammar::tv(t@), i as nat), i, t@.len()),
    decreases t.len() - i, 37nat,
{
    proof {
        grammar::unfold_sp_xor(grammar::tv(t@), i as nat);
    }
    match parse_and(t, i) {
        None => None,
        Some((x, c)) => {
            let (e, d) = parse_xor_tail(t, i + c, x);
            Some((e, c + d))
        },
    }
}

fn parse_xor_tail(t: &Vec<Token>, i: usize, acc: Expr) -> (r: (Expr, usize))
    requires
        i <= t.len(),
    ensures
        agrees_tail(r, grammar::sp_xor_tail(grammar::tv(t@), i as nat, acc@), i, t@.len()),
    decreases t.len() - i, 36nat,
{
    proof {
        grammar::unfold_sp_xor_tail(grammar::tv(t@), i as nat, acc@);
    }
    if kw_at_x(t, i, Keyword::Xor) {
        match parse_and(t, i + 1) {
            Some((y, c)) => {
                let (e, d) = parse_xor_tail(t, i + 1 + c, mk_bin(BinOp::Xor, acc, y));
                (e, 1 + c + d)
            },
            None => (acc, 0),
        }
    } else {
        (acc, 0)
    }
}

fn parse_and(t: &Vec<Token>, i: usize) -> (r: Option<(Expr, usize)>)
    requires
        i <= t.len(),
    ensures
        agrees(r, grammar::sp_and(grammar::tv(t@), i as nat), i, t@.len()),
    decreases t.len() - i, 35nat,
{
    proof {
        grammar::unfold_sp_and(grammar::tv(t@), i as nat);
    }
    match parse_not(t, i) {
        None => None,
        Some((x, c)) => {
            let (e, d) = parse_and_tail(t, i + c, x);
            Some((e, c + d))
        },
    }
}

fn parse_and_tail(t: &Vec<Token>, i: usize, acc: Expr) -> (r: (Expr, usize))
    requires
        i <= t.len(),
    ensures
        agrees_tail(r, grammar::sp_and_tail(grammar::tv(t@), i as nat, acc@), i, t@.len()),
    decreases t.len() - i, 34nat,
{
    proof {
        grammar::unfold_sp_and_tail(grammar::tv(t@), i as nat, acc@);
    }
    if kw_at_x(t, i, Keyword::And) {
        match parse_not(t, i + 1) {
            Some((y, c)) => {
                let (e, d) = parse_and_tail(t, i + 1 + c, mk_bin(BinOp::And, acc, y));
                (e, 1 + c + d)
            },
            None => (acc, 0),
        }
    } else {
        (acc, 0)
    }
}

fn parse_not(t: &Vec<Token>, i: usize) -> (r: Option<(Expr, usize)>)
    requires
        i <= t.len(),
    ensures
        agrees(r, grammar::sp_not(grammar::tv(t@), i as nat), i, t@.len()),
    decreases t.len() - i, 33nat,
{
    proof {
        grammar::unfold_sp_not(grammar::tv(t@), i as nat);
    }
    if kw_at_x(t, i, Keyword::Not) {
        match parse_not(t, i + 1) {
            Some((x, c)) => Some((mk_un(UnOp::Not, x), 1 + c)),
            None => None,
        }
    } else {
        parse_comparison(t, i)
    }
}

fn parse_comparison(t: &Vec<Token>, i: usize) -> (r: Option<(Expr, usize)>)
    requires
        i <= t.len(),
    ensures
        agrees(r, grammar::sp_comparison(grammar::tv(t@), i as nat), i, t@.len()),
    decreases t.len() - i, 32nat,
{
    proof {
        grammar::unfold_sp_comparison(grammar::tv(t@), i as nat);
    }
    match parse_add(t, i) {
        None => None,
        Some((x, c)) => {
            let (e, d) = parse_comparison_tail(t, i + c, x);
            Some((e, c + d))
        },
    }
}

fn parse_comparison_tail(t: &Vec<Token>, i: usize, x: Expr) -> (r: (Expr, usize))
    requires
        i <= t.len(),
    ensures
        agrees_tail(r, grammar::sp_comparison_tail(grammar::tv(t@), i as nat, x@), i, t@.len()),
    decreases t.len() - i, 31nat,
{
    proof {
        grammar::unfold_sp_comparison_tail(grammar::tv(t@), i as nat, x@);
    }
    if let Some(op) = comparison_op_at_x(t, i) {
        match parse_add(t, i + 1) {
            Some((y, c)) => (mk_bin(op, x, y), 1 + c),
            None => (x, 0),
        }
    } else if kw_at_x(t, i, Keyword::In) {
        match parse_add(t, i + 1) {
            Some((y, c)) => (mk_bin(BinOp::In, x, y), 1 + c),
            None => (x, 0),
        }
    } else if kw_at_x(t, i, Keyword::Starts) && kw_at_x(t, i + 1, Keyword::With) {
        match parse_add(t, i + 2) {
            Some((y, c)) => (mk_bin(BinOp::StartsWith, x, y), 2 + c),
            None => (x, 0),
        }
    } else if kw_at_x(t, i, Keyword::Ends) && kw_at_x(t, i + 1, Keyword::With) {
        match parse_add(t, i + 2) {
            Some((y, c)) => (mk_bin(BinOp::EndsWith, x, y), 2 + c),
            None => (x, 0),
        }
    } else if kw_at_x(t, i, Keyword::Contains) {
        match parse_add(t, i + 1) {
            Some((y, c)) => (mk_bin(BinOp::Contains, x, y), 1 + c),
            None => (x, 0),
        }
    } else if kw_at_x(t, i, Keyword::Is) && kw_at_x(t, i + 1, Keyword::Not) && kw_at_x(
        t,
        i + 2,
        Keyword::Null,
    ) {
        (mk_un(UnOp::IsNotNull, x), 3)
    } else if kw_at_x(t, i, Keyword::Is) && kw_at_x(t, i + 1, Keyword::Null) {
        (mk_un(UnOp::IsNull, x), 2)
    } else {
        (x, 0)
    }
}

fn parse_add(t: &Vec<Token>, i: usize) -> (r: Option<(Expr, usize)>)
    requires
        i <= t.len(),
    ensures
        agrees(r, grammar::sp_add(grammar::tv(t@), i as nat), i, t@.len()),
    decreases t.len() - i, 30nat,
{
    proof {
        grammar::unfold_sp_add(grammar::tv(t@), i as nat);
    }
    match parse_mul(t, i) {
        None => None,
        Some((x, c)) => {
            let (e, d) = parse_add_tail(t, i + c, x);
            Some((e, c + d))
        },
    }
}

fn parse_add_tail(t: &Vec<Token>, i: usize, acc: Expr) -> (r: (Expr, usize))
    requires
        i <= t.len(),
    ensures
        agrees_tail(r, grammar::sp_add_tail(grammar::tv(t@), i as nat, acc@), i, t@.len()),
    decreases t.len() - i, 29nat,
{
    proof {
        grammar::unfold_sp_add_tail(grammar::tv(t@), i as nat, acc@);
    }
    if let Some(op) = add_op_at_x(t, i) {
        match parse_mul(t, i + 1) {
            Some((y, c)) => {
                let (e, d) = parse_add_tail(t, i + 1 + c, mk_bin(op, acc, y));
                (e, 1 + c + d)
            },
            None => (acc, 0),
        }
    } else {
        (acc, 0)
    }
}

fn parse_mul(t: &Vec<Token>, i: usize) -> (r: Option<(Expr, usize)>)
    requires
        i <= t.len(),
    ensures
        agrees(r, grammar::sp_mul(grammar::tv(t@), i as nat), i, t@.len()),
    decreases t.len() - i, 28nat,
{
    proof {
        grammar::unfold_sp_mul(grammar::tv(t@), i as nat);
    }
    match parse_unary(t, i) {
        None => None,
        Some((x, c)) => {
            let (e, d) = parse_mul_tail(t, i + c, x);
            Some((e, c + d))
        },
    }
}

fn parse_mul_tail(t: &Vec<Token>, i: usize, acc: Expr) -> (r: (Expr, usize))
    requires
        i <= t.len(),
    ensures
        agrees_tail(r, grammar::sp_mul_tail(grammar::tv(t@), i as nat, acc@), i, t@.len()),
    decreases t.len() - i, 27nat,
{
    proof {
        grammar::unfold_sp_mul_tail(grammar::tv(t@), i as nat, acc@);
    }
    if let Some(op) = mul_op_at_x(t, i) {
        match parse_unary(t, i + 1) {
            Some((y, c)) => {
                let (e, d) = parse_mul_tail(t, i + 1 + c, mk_bin(op, acc, y));
                (e, 1 + c + d)
            },
            None => (acc, 0),
        }
    } else {
        (acc, 0)
    }
}

fn parse_unary(t: &Vec<Token>, i: usize) -> (r: Option<(Expr, usize)>)
    requires
        i <= t.len(),
    ensures
        agrees(r, grammar::sp_unary(grammar::tv(t@), i as nat), i, t@.len()),
    decreases t.len() - i, 26nat,
{
    proof {
        grammar::unfold_sp_unary(grammar::tv(t@), i as nat);
    }
    if sym_at_x(t, i, Symbol::Dash) {
        match parse_unary(t, i + 1) {
            Some((x, c)) => Some((mk_un(UnOp::Neg, x), 1 + c)),
            None => None,
        }
    } else {
        parse_postfix(t, i)
    }
}

fn parse_postfix(t: &Vec<Token>, i: usize) -> (r: Option<(Expr, usize)>)
    requires
        i <= t.len(),
    ensures
        agrees(r, grammar::sp_postfix(grammar::tv(t@), i as nat), i, t@.len()),
    decreases t.len() - i, 25nat,
{
    proof {
        grammar::unfold_sp_postfix(grammar::tv(t@), i as nat);
    }
    match parse_atom(t, i) {
        None => None,
        Some((x, c)) => {
            let (e, d) = parse_postfix_tail(t, i + c, x);
            Some((e, c + d))
        },
    }
}

fn parse_postfix_tail(t: &Vec<Token>, i: usize, acc: Expr) -> (r: (Expr, usize))
    requires
        i <= t.len(),
    ensures
        agrees_tail(r, grammar::sp_postfix_tail(grammar::tv(t@), i as nat, acc@), i, t@.len()),
    decreases t.len() - i,
{
    proof {
        grammar::unfold_sp_postfix_tail(grammar::tv(t@), i as nat, acc@);
    }
    if sym_at_x(t, i, Symbol::Dot) {
        match ident_at_x(t, i + 1) {
            Some(key) => {
                let (e, d) = parse_postfix_tail(
                    t,
                    i + 2,
                    Expr::Property { base: Box::new(acc), key },
                );
                (e, 2 + d)
            },
            None => (acc, 0),
        }
    } else {
        (acc, 0)
    }
}

fn parse_atom(t: &Vec<Token>, i: usize) -> (r: Option<(Expr, usize)>)
    requires
        i <= t.len(),
    ensures
        agrees(r, grammar::sp_atom(grammar::tv(t@), i as nat), i, t@.len()),
    decreases t.len() - i, 24nat,
{
    proof {
        grammar::unfold_sp_atom(grammar::tv(t@), i as nat);
    }
    if i >= t.len() {
        return None;
    }
    proof {
        lemma_tv_index(t@, i as int);
    }
    match &t[i] {
        Token::Param(p) => Some((Expr::Param(p.clone()), 1)),
        Token::Int(v) => Some((Expr::Literal(Literal::Int(*v)), 1)),
        Token::BigInt(_) => Some((Expr::Literal(Literal::Int(0)), 1)),
        Token::Float(f) => Some((Expr::Literal(Literal::Float(f.clone())), 1)),
        Token::Str(s) => Some((Expr::Literal(Literal::String(s.clone())), 1)),
        Token::Ident(n) => Some((Expr::Variable(n.clone()), 1)),
        Token::Kw(Keyword::True) => Some((Expr::Literal(Literal::Bool(true)), 1)),
        Token::Kw(Keyword::False) => Some((Expr::Literal(Literal::Bool(false)), 1)),
        Token::Kw(Keyword::Null) => Some((Expr::Literal(Literal::Null), 1)),
        Token::Sym(Symbol::LBracket) => {
            if sym_at_x(t, i + 1, Symbol::RBracket) {
                let empty: Vec<Expr> = Vec::new();
                proof {
                    assert(ast::exprs_model(empty@) =~= Seq::<SExpr>::empty());
                }
                Some((Expr::List(empty), 2))
            } else {
                match parse_expr(t, i + 1) {
                    Some((e, c)) => {
                        let mut first: Vec<Expr> = Vec::new();
                        let ghost em = e@;
                        first.push(e);
                        proof {
                            ast::lemma_exprs_push(Seq::empty(), first@[0]);
                            assert(Seq::<Expr>::empty().push(first@[0]) =~= first@);
                            assert(ast::exprs_model(Seq::<Expr>::empty()) =~= Seq::<SExpr>::empty());
                            assert(Seq::<SExpr>::empty().push(em) =~= seq![em]);
                        }
                        match parse_list_rest(t, i + 1 + c, first) {
                            Some((items, d)) => Some((Expr::List(items), 1 + c + d)),
                            None => None,
                        }
                    },
                    None => None,
                }
            }
        },
        Token::Sym(Symbol::LBrace) => match parse_map_body(t, i + 1) {
            Some((entries, c)) => Some((Expr::MapLit(entries), 1 + c)),
            None => None,
        },
        Token::Sym(Symbol::LParen) => match parse_expr(t, i + 1) {
            Some((e, c)) => if sym_at_x(t, i + 1 + c, Symbol::RParen) {
                Some((e, 2 + c))
            } else {
                None
            },
            None => None,
        },
        _ => None,
    }
}

fn parse_list_rest(t: &Vec<Token>, i: usize, acc: Vec<Expr>) -> (r: Option<(Vec<Expr>, usize)>)
    requires
        i <= t.len(),
    ensures
        match r {
            Some((items, c)) => grammar::sp_list_rest(grammar::tv(t@), i as nat, ast::exprs_model(acc@)) == Some(
                (ast::exprs_model(items@), c as nat),
            ) && i + c <= t.len(),
            None => grammar::sp_list_rest(grammar::tv(t@), i as nat, ast::exprs_model(acc@)) is None,
        },
    decreases t.len() - i, 23nat,
{
    proof {
        grammar::unfold_sp_list_rest(grammar::tv(t@), i as nat, ast::exprs_model(acc@));
    }
    if sym_at_x(t, i, Symbol::RBracket) {
        Some((acc, 1))
    } else if sym_at_x(t, i, Symbol::Comma) {
        match parse_expr(t, i + 1) {
            Some((e, c)) => {
                let mut acc = acc;
                let ghost old_acc = acc@;
                proof {
                    ast::lemma_exprs_push(old_acc, e);
                }
                acc.push(e);
                match parse_list_rest(t, i + 1 + c, acc) {
                    Some((items, d)) => Some((items, 1 + c + d)),
                    None => None,
                }
            },
            None => None,
        }
    } else {
        None
    }
}

fn parse_map_body(t: &Vec<Token>, i: usize) -> (r: Option<(Vec<(String, Expr)>, usize)>)
    requires
        i <= t.len(),
    ensures
        match r {
            Some((entries, c)) => grammar::sp_map_body(grammar::tv(t@), i as nat) == Some(
                (ast::entries_model(entries@), c as nat),
            ) && i + c <= t.len(),
            None => grammar::sp_map_body(grammar::tv(t@), i as nat) is None,
        },
    decreases t.len() - i, 22nat,
{
    proof {
        grammar::unfold_sp_map_body(grammar::tv(t@), i as nat);
    }
    if sym_at_x(t, i, Symbol::RBrace) {
        let empty: Vec<(String, Expr)> = Vec::new();
        proof {
            assert(ast::entries_model(empty@) =~= Seq::<(Seq<char>, SExpr)>::empty());
        }
        Some((empty, 1))
    } else {
        match parse_map_entry(t, i) {
            Some((kv, c)) => {
                let mut first: Vec<(String, Expr)> = Vec::new();
                let ghost kvm = (kv.0@, kv.1@);
                first.push(kv);
                proof {
                    ast::lemma_entries_push(Seq::empty(), first@[0]);
                    assert(Seq::<(String, Expr)>::empty().push(first@[0]) =~= first@);
                    assert(ast::entries_model(Seq::<(String, Expr)>::empty()) =~= Seq::<
                        (Seq<char>, SExpr),
                    >::empty());
                    assert(Seq::<(Seq<char>, SExpr)>::empty().push(kvm) =~= seq![kvm]);
                }
                match parse_map_rest(t, i + c, first) {
                    Some((entries, d)) => Some((entries, c + d)),
                    None => None,
                }
            },
            None => None,
        }
    }
}

fn parse_map_entry(t: &Vec<Token>, i: usize) -> (r: Option<((String, Expr), usize)>)
    requires
        i <= t.len(),
    ensures
        match r {
            Some((kv, c)) => grammar::sp_map_entry(grammar::tv(t@), i as nat) == Some(((kv.0@, kv.1@), c as nat))
                && i + c <= t.len(),
            None => grammar::sp_map_entry(grammar::tv(t@), i as nat) is None,
        },
    decreases t.len() - i, 21nat,
{
    proof {
        grammar::unfold_sp_map_entry(grammar::tv(t@), i as nat);
    }
    match ident_at_x(t, i) {
        Some(k) => if sym_at_x(t, i + 1, Symbol::Colon) {
            match parse_expr(t, i + 2) {
                Some((v, c)) => Some(((k, v), 2 + c)),
                None => None,
            }
        } else {
            None
        },
        None => None,
    }
}

fn parse_map_rest(t: &Vec<Token>, i: usize, acc: Vec<(String, Expr)>) -> (r: Option<
    (Vec<(String, Expr)>, usize),
>)
    requires
        i <= t.len(),
    ensures
        match r {
            Some((entries, c)) => grammar::sp_map_rest(grammar::tv(t@), i as nat, ast::entries_model(acc@)) == Some(
                (ast::entries_model(entries@), c as nat),
            ) && i + c <= t.len(),
            None => grammar::sp_map_rest(grammar::tv(t@), i as nat, ast::entries_model(acc@)) is None,
        },
    decreases t.len() - i, 20nat,
{
    proof {
        grammar::unfold_sp_map_rest(grammar::tv(t@), i as nat, ast::entries_model(acc@));
    }
    if sym_at_x(t, i, Symbol::RBrace) {
        Some((acc, 1))
    } else if sym_at_x(t, i, Symbol::Comma) {
        match parse_map_entry(t, i + 1) {
            Some((kv, c)) => {
                let mut acc = acc;
                proof {
                    ast::lemma_entries_push(acc@, kv);
                }
                acc.push(kv);
                match parse_map_rest(t, i + 1 + c, acc) {
                    Some((entries, d)) => Some((entries, 1 + c + d)),
                    None => None,
                }
            },
            None => None,
        }
    } else {
        None
    }
}

// ---- clauses ---------------------------------------------------------------

fn parse_item(t: &Vec<Token>, i: usize) -> (r: Option<(ReturnItem, usize)>)
    requires
        i <= t.len(),
    ensures
        match r {
            Some((it, c)) => grammar::sp_item(grammar::tv(t@), i as nat) == Some((it@, c as nat))
                && i + c <= t.len(),
            None => grammar::sp_item(grammar::tv(t@), i as nat) is None,
        },
{
    proof {
        grammar::unfold_sp_item(grammar::tv(t@), i as nat);
    }
    match parse_expr(t, i) {
        None => None,
        Some((e, c)) => {
            if kw_at_x(t, i + c, Keyword::As) {
                match ident_at_x(t, i + c + 1) {
                    Some(a) => Some((ReturnItem { expr: e, alias: Some(a) }, c + 2)),
                    None => Some((ReturnItem { expr: e, alias: None }, c)),
                }
            } else {
                Some((ReturnItem { expr: e, alias: None }, c))
            }
        },
    }
}

fn parse_items_rest(t: &Vec<Token>, i: usize, acc: Vec<ReturnItem>) -> (r: (Vec<ReturnItem>, usize))
    requires
        i <= t.len(),
    ensures
        grammar::sp_items_rest(grammar::tv(t@), i as nat, ast::items_model(acc@)) == (
            ast::items_model(r.0@),
            r.1 as nat,
        ),
        i + r.1 <= t.len(),
    decreases t.len() - i,
{
    proof {
        grammar::unfold_sp_items_rest(grammar::tv(t@), i as nat, ast::items_model(acc@));
    }
    if sym_at_x(t, i, Symbol::Comma) {
        match parse_item(t, i + 1) {
            Some((it, c)) => {
                let mut acc = acc;
                proof {
                    ast::lemma_items_push(acc@, it);
                }
                acc.push(it);
                let (items, d) = parse_items_rest(t, i + 1 + c, acc);
                (items, 1 + c + d)
            },
            None => (acc, 0),
        }
    } else {
        (acc, 0)
    }
}

fn parse_projection(t: &Vec<Token>, i: usize) -> (r: Option<(ReturnClause, usize)>)
    requires
        i <= t.len(),
    ensures
        match r {
            Some((p, c)) => grammar::sp_projection(grammar::tv(t@), i as nat) == Some((p@, c as nat))
                && i + c <= t.len(),
            None => grammar::sp_projection(grammar::tv(t@), i as nat) is None,
        },
{
    proof {
        grammar::unfold_sp_projection(grammar::tv(t@), i as nat);
    }
    let distinct = kw_at_x(t, i, Keyword::Distinct);
    let j: usize = if distinct {
        i + 1
    } else {
        i
    };
    match parse_item(t, j) {
        None => None,
        Some((it, c)) => {
            let mut first: Vec<ReturnItem> = Vec::new();
            let ghost itv = it@;
            first.push(it);
            proof {
                assert(ast::items_model(first@) =~= seq![itv]);
            }
            let (items, d) = parse_items_rest(t, j + c, first);
            Some((ReturnClause { items, distinct }, (j - i) + c + d))
        },
    }
}

fn parse_order_item(t: &Vec<Token>, i: usize) -> (r: Option<(OrderItem, usize)>)
    requires
        i <= t.len(),
    ensures
        match r {
            Some((it, c)) => grammar::sp_order_item(grammar::tv(t@), i as nat) == Some((it@, c as nat))
                && i + c <= t.len(),
            None => grammar::sp_order_item(grammar::tv(t@), i as nat) is None,
        },
{
    proof {
        grammar::unfold_sp_order_item(grammar::tv(t@), i as nat);
    }
    match parse_expr(t, i) {
        None => None,
        Some((e, c)) => {
            if kw_at_x(t, i + c, Keyword::Desc) || kw_at_x(t, i + c, Keyword::Descending) {
                Some((OrderItem { expr: e, desc: true }, c + 1))
            } else if kw_at_x(t, i + c, Keyword::Asc) || kw_at_x(t, i + c, Keyword::Ascending) {
                Some((OrderItem { expr: e, desc: false }, c + 1))
            } else {
                Some((OrderItem { expr: e, desc: false }, c))
            }
        },
    }
}

fn parse_order_rest(t: &Vec<Token>, i: usize, acc: Vec<OrderItem>) -> (r: (Vec<OrderItem>, usize))
    requires
        i <= t.len(),
    ensures
        grammar::sp_order_rest(grammar::tv(t@), i as nat, ast::orders_model(acc@)) == (
            ast::orders_model(r.0@),
            r.1 as nat,
        ),
        i + r.1 <= t.len(),
    decreases t.len() - i,
{
    proof {
        grammar::unfold_sp_order_rest(grammar::tv(t@), i as nat, ast::orders_model(acc@));
    }
    if sym_at_x(t, i, Symbol::Comma) {
        match parse_order_item(t, i + 1) {
            Some((it, c)) => {
                let mut acc = acc;
                proof {
                    ast::lemma_orders_push(acc@, it);
                }
                acc.push(it);
                let (items, d) = parse_order_rest(t, i + 1 + c, acc);
                (items, 1 + c + d)
            },
            None => (acc, 0),
        }
    } else {
        (acc, 0)
    }
}

fn parse_exprs_rest(t: &Vec<Token>, i: usize, acc: Vec<Expr>) -> (r: (Vec<Expr>, usize))
    requires
        i <= t.len(),
    ensures
        grammar::sp_exprs_rest(grammar::tv(t@), i as nat, ast::exprs_model(acc@)) == (
            ast::exprs_model(r.0@),
            r.1 as nat,
        ),
        i + r.1 <= t.len(),
    decreases t.len() - i,
{
    proof {
        grammar::unfold_sp_exprs_rest(grammar::tv(t@), i as nat, ast::exprs_model(acc@));
    }
    if sym_at_x(t, i, Symbol::Comma) {
        match parse_expr(t, i + 1) {
            Some((e, c)) => {
                let mut acc = acc;
                proof {
                    ast::lemma_exprs_push(acc@, e);
                }
                acc.push(e);
                let (items, d) = parse_exprs_rest(t, i + 1 + c, acc);
                (items, 1 + c + d)
            },
            None => (acc, 0),
        }
    } else {
        (acc, 0)
    }
}

/// A one-element vector holding `e`.
fn single_expr(e: Expr) -> (v: Vec<Expr>)
    ensures
        ast::exprs_model(v@) == seq![e@],
{
    let mut v: Vec<Expr> = Vec::new();
    let ghost ev = e@;
    v.push(e);
    proof {
        ast::lemma_exprs_push(Seq::empty(), v@[0]);
        assert(Seq::<Expr>::empty().push(v@[0]) =~= v@);
        assert(ast::exprs_model(Seq::<Expr>::empty()) =~= Seq::<SExpr>::empty());
        assert(Seq::<SExpr>::empty().push(ev) =~= seq![ev]);
    }
    v
}

fn parse_exprs(t: &Vec<Token>, i: usize) -> (r: Option<(Vec<Expr>, usize)>)
    requires
        i <= t.len(),
    ensures
        match r {
            Some((es, c)) => grammar::sp_exprs(grammar::tv(t@), i as nat) == Some(
                (ast::exprs_model(es@), c as nat),
            ) && i + c <= t.len(),
            None => grammar::sp_exprs(grammar::tv(t@), i as nat) is None,
        },
{
    proof {
        grammar::unfold_sp_exprs(grammar::tv(t@), i as nat);
    }
    match parse_expr(t, i) {
        None => None,
        Some((e, c)) => {
            let first = single_expr(e);
            let (items, d) = parse_exprs_rest(t, i + c, first);
            Some((items, c + d))
        },
    }
}

// ---- patterns --------------------------------------------------------------

fn parse_labels(t: &Vec<Token>, i: usize, acc: Vec<String>) -> (r: (Vec<String>, usize))
    requires
        i <= t.len(),
    ensures
        grammar::sp_labels(grammar::tv(t@), i as nat, ast::strs(acc@)) == (
            ast::strs(r.0@),
            r.1 as nat,
        ),
        i + r.1 <= t.len(),
    decreases t.len() - i,
{
    proof {
        grammar::unfold_sp_labels(grammar::tv(t@), i as nat, ast::strs(acc@));
    }
    if sym_at_x(t, i, Symbol::Colon) {
        match ident_at_x(t, i + 1) {
            Some(l) => {
                let mut acc = acc;
                proof {
                    ast::lemma_strs_push(acc@, l);
                }
                acc.push(l);
                let (ls, d) = parse_labels(t, i + 2, acc);
                (ls, 2 + d)
            },
            None => (acc, 0),
        }
    } else {
        (acc, 0)
    }
}

fn parse_types_rest(t: &Vec<Token>, i: usize, acc: Vec<String>) -> (r: (Vec<String>, usize))
    requires
        i <= t.len(),
    ensures
        grammar::sp_types_rest(grammar::tv(t@), i as nat, ast::strs(acc@)) == (
            ast::strs(r.0@),
            r.1 as nat,
        ),
        i + r.1 <= t.len(),
    decreases t.len() - i,
{
    proof {
        grammar::unfold_sp_types_rest(grammar::tv(t@), i as nat, ast::strs(acc@));
    }
    if sym_at_x(t, i, Symbol::Pipe) {
        if sym_at_x(t, i + 1, Symbol::Colon) {
            if let Some(ty) = ident_at_x(t, i + 2) {
                let mut acc = acc;
                proof {
                    ast::lemma_strs_push(acc@, ty);
                }
                acc.push(ty);
                let (tys, d) = parse_types_rest(t, i + 3, acc);
                return (tys, 3 + d);
            }
        }
        match ident_at_x(t, i + 1) {
            Some(ty) => {
                let mut acc = acc;
                proof {
                    ast::lemma_strs_push(acc@, ty);
                }
                acc.push(ty);
                let (tys, d) = parse_types_rest(t, i + 2, acc);
                (tys, 2 + d)
            },
            None => (acc, 0),
        }
    } else {
        (acc, 0)
    }
}

fn parse_types(t: &Vec<Token>, i: usize) -> (r: (Vec<String>, usize))
    requires
        i <= t.len(),
    ensures
        grammar::sp_types(grammar::tv(t@), i as nat) == (ast::strs(r.0@), r.1 as nat),
        i + r.1 <= t.len(),
{
    proof {
        grammar::unfold_sp_types(grammar::tv(t@), i as nat);
    }
    if sym_at_x(t, i, Symbol::Colon) {
        if let Some(ty) = ident_at_x(t, i + 1) {
            let mut first: Vec<String> = Vec::new();
            let ghost tyv = ty@;
            first.push(ty);
            proof {
                assert(ast::strs(first@) =~= seq![tyv]);
            }
            let (tys, d) = parse_types_rest(t, i + 2, first);
            return (tys, 2 + d);
        }
    }
    let empty: Vec<String> = Vec::new();
    proof {
        assert(ast::strs(empty@) =~= Seq::<Seq<char>>::empty());
    }
    (empty, 0)
}

fn parse_opt_ident(t: &Vec<Token>, i: usize) -> (r: (Option<String>, usize))
    requires
        i <= t.len(),
    ensures
        grammar::sp_opt_ident(grammar::tv(t@), i as nat) == (ast::opt_str(r.0), r.1 as nat),
        i + r.1 <= t.len(),
{
    proof {
        grammar::unfold_sp_opt_ident(grammar::tv(t@), i as nat);
    }
    match ident_at_x(t, i) {
        Some(v) => (Some(v), 1),
        None => (None, 0),
    }
}

fn empty_entries() -> (v: Vec<(String, Expr)>)
    ensures
        ast::entries_model(v@) == Seq::<(Seq<char>, SExpr)>::empty(),
{
    let v: Vec<(String, Expr)> = Vec::new();
    proof {
        assert(ast::entries_model(v@) =~= Seq::<(Seq<char>, SExpr)>::empty());
    }
    v
}

fn parse_props_close(t: &Vec<Token>, i: usize, close: Symbol) -> (r: Option<
    (Vec<(String, Expr)>, usize),
>)
    requires
        i <= t.len(),
    ensures
        match r {
            Some((ps, c)) => grammar::sp_props_close(grammar::tv(t@), i as nat, close) == Some(
                (ast::entries_model(ps@), c as nat),
            ) && i + c <= t.len(),
            None => grammar::sp_props_close(grammar::tv(t@), i as nat, close) is None,
        },
{
    proof {
        grammar::unfold_sp_props_close(grammar::tv(t@), i as nat, close);
    }
    if sym_at_x(t, i, Symbol::LBrace) {
        match parse_map_body(t, i + 1) {
            Some((props, c)) => if sym_at_x(t, i + 1 + c, close) {
                Some((props, 2 + c))
            } else {
                None
            },
            None => None,
        }
    } else if sym_at_x(t, i, close) {
        Some((empty_entries(), 1))
    } else {
        None
    }
}

fn parse_node(t: &Vec<Token>, i: usize) -> (r: Option<(NodePattern, usize)>)
    requires
        i <= t.len(),
    ensures
        match r {
            Some((n, c)) => grammar::sp_node(grammar::tv(t@), i as nat) == Some((n@, c as nat))
                && i + c <= t.len(),
            None => grammar::sp_node(grammar::tv(t@), i as nat) is None,
        },
{
    proof {
        grammar::unfold_sp_node(grammar::tv(t@), i as nat);
    }
    if sym_at_x(t, i, Symbol::LParen) {
        let (var, a) = parse_opt_ident(t, i + 1);
        let empty: Vec<String> = Vec::new();
        proof {
            assert(ast::strs(empty@) =~= Seq::<Seq<char>>::empty());
        }
        let (labels, b) = parse_labels(t, i + 1 + a, empty);
        match parse_props_close(t, i + 1 + a + b, Symbol::RParen) {
            Some((properties, c)) => Some((NodePattern { var, labels, properties }, 1 + a + b + c)),
            None => None,
        }
    } else {
        None
    }
}

/// The variable, types and properties between `[` and `]`.
pub open spec fn detail_view(d: (Option<String>, Vec<String>, Vec<(String, Expr)>)) -> (
    Option<Seq<char>>,
    Seq<Seq<char>>,
    Seq<(Seq<char>, SExpr)>,
) {
    (ast::opt_str(d.0), ast::strs(d.1@), ast::entries_model(d.2@))
}

fn parse_detail(t: &Vec<Token>, i: usize) -> (r: Option<
    ((Option<String>, Vec<String>, Vec<(String, Expr)>), usize),
>)
    requires
        i <= t.len(),
    ensures
        match r {
            Some((d, c)) => grammar::sp_detail(grammar::tv(t@), i as nat) == Some(
                (detail_view(d), c as nat),
            ) && i + c <= t.len(),
            None => grammar::sp_detail(grammar::tv(t@), i as nat) is None,
        },
{
    proof {
        grammar::unfold_sp_detail(grammar::tv(t@), i as nat);
    }
    if sym_at_x(t, i, Symbol::LBracket) {
        let (var, a) = parse_opt_ident(t, i + 1);
        let (types, b) = parse_types(t, i + 1 + a);
        match parse_props_close(t, i + 1 + a + b, Symbol::RBracket) {
            Some((props, c)) => Some(((var, types, props), 1 + a + b + c)),
            None => None,
        }
    } else {
        None
    }
}

fn parse_opt_detail(t: &Vec<Token>, i: usize) -> (r: (
    (Option<String>, Vec<String>, Vec<(String, Expr)>),
    usize,
))
    requires
        i <= t.len(),
    ensures
        grammar::sp_opt_detail(grammar::tv(t@), i as nat) == (detail_view(r.0), r.1 as nat),
        i + r.1 <= t.len(),
{
    proof {
        grammar::unfold_sp_opt_detail(grammar::tv(t@), i as nat);
    }
    match parse_detail(t, i) {
        Some((d, c)) => (d, c),
        None => {
            let types: Vec<String> = Vec::new();
            proof {
                assert(ast::strs(types@) =~= Seq::<Seq<char>>::empty());
            }
            ((None, types, empty_entries()), 0)
        },
    }
}

fn mk_rel_x(d: (Option<String>, Vec<String>, Vec<(String, Expr)>), direction: Direction) -> (r:
    RelPattern)
    ensures
        r@ == grammar::mk_rel(detail_view(d), direction),
{
    RelPattern { var: d.0, direction, types: d.1, properties: d.2 }
}

fn parse_rel_rest(t: &Vec<Token>, i: usize, left: bool) -> (r: Option<(RelPattern, usize)>)
    requires
        i <= t.len(),
    ensures
        match r {
            Some((rel, c)) => grammar::sp_rel_rest(grammar::tv(t@), i as nat, left) == Some(
                (rel@, c as nat),
            ) && i + c <= t.len(),
            None => grammar::sp_rel_rest(grammar::tv(t@), i as nat, left) is None,
        },
{
    proof {
        grammar::unfold_sp_rel_rest(grammar::tv(t@), i as nat, left);
    }
    if left {
        if sym_at_x(t, i, Symbol::Dash) {
            let (d, a) = parse_opt_detail(t, i + 1);
            if sym_at_x(t, i + 1 + a, Symbol::Dash) {
                Some((mk_rel_x(d, Direction::Incoming), 2 + a))
            } else {
                None
            }
        } else {
            None
        }
    } else {
        let (d, a) = parse_opt_detail(t, i);
        if sym_at_x(t, i + a, Symbol::Dash) {
            if sym_at_x(t, i + a + 1, Symbol::Gt) {
                Some((mk_rel_x(d, Direction::Outgoing), a + 2))
            } else {
                Some((mk_rel_x(d, Direction::Undirected), a + 1))
            }
        } else {
            None
        }
    }
}

fn parse_chains(t: &Vec<Token>, i: usize, acc: Vec<RelChain>) -> (r: (Vec<RelChain>, usize))
    requires
        i <= t.len(),
    ensures
        grammar::sp_chains(grammar::tv(t@), i as nat, ast::chains_model(acc@)) == (
            ast::chains_model(r.0@),
            r.1 as nat,
        ),
        i + r.1 <= t.len(),
    decreases t.len() - i,
{
    proof {
        grammar::unfold_sp_chains(grammar::tv(t@), i as nat, ast::chains_model(acc@));
    }
    let lt = sym_at_x(t, i, Symbol::Lt);
    if lt || sym_at_x(t, i, Symbol::Dash) {
        match parse_rel_rest(t, i + 1, lt) {
            Some((rel, a)) => match parse_node(t, i + 1 + a) {
                Some((node, b)) => {
                    let mut acc = acc;
                    let link = RelChain { rel, node };
                    proof {
                        ast::lemma_chains_push(acc@, link);
                    }
                    acc.push(link);
                    let (chain, d) = parse_chains(t, i + 1 + a + b, acc);
                    (chain, 1 + a + b + d)
                },
                None => (acc, 0),
            },
            None => (acc, 0),
        }
    } else {
        (acc, 0)
    }
}

fn parse_pattern(t: &Vec<Token>, i: usize) -> (r: Option<(Pattern, usize)>)
    requires
        i <= t.len(),
    ensures
        match r {
            Some((p, c)) => grammar::sp_pattern(grammar::tv(t@), i as nat) == Some((p@, c as nat))
                && i + c <= t.len(),
            None => grammar::sp_pattern(grammar::tv(t@), i as nat) is None,
        },
{
    proof {
        grammar::unfold_sp_pattern(grammar::tv(t@), i as nat);
    }
    match parse_node(t, i) {
        None => None,
        Some((anchor, a)) => {
            let empty: Vec<RelChain> = Vec::new();
            proof {
                assert(ast::chains_model(empty@) =~= Seq::<SChain>::empty());
            }
            let (chain, b) = parse_chains(t, i + a, empty);
            Some((Pattern { anchor, chain }, a + b))
        },
    }
}

fn parse_patterns_rest(t: &Vec<Token>, i: usize, acc: Vec<Pattern>) -> (r: (Vec<Pattern>, usize))
    requires
        i <= t.len(),
    ensures
        grammar::sp_patterns_rest(grammar::tv(t@), i as nat, ast::patterns_model(acc@)) == (
            ast::patterns_model(r.0@),
            r.1 as nat,
        ),
        i + r.1 <= t.len(),
    decreases t.len() - i,
{
    proof {
        grammar::unfold_sp_patterns_rest(grammar::tv(t@), i as nat, ast::patterns_model(acc@));
    }
    if sym_at_x(t, i, Symbol::Comma) {
        match parse_pattern(t, i + 1) {
            Some((p, c)) => {
                let mut acc = acc;
                proof {
                    ast::lemma_patterns_push(acc@, p);
                }
                acc.push(p);
                let (ps, d) = parse_patterns_rest(t, i + 1 + c, acc);
                (ps, 1 + c + d)
            },
            None => (acc, 0),
        }
    } else {
        (acc, 0)
    }
}

fn parse_patterns(t: &Vec<Token>, i: usize) -> (r: Option<(Vec<Pattern>, usize)>)
    requires
        i <= t.len(),
    ensures
        match r {
            Some((ps, c)) => grammar::sp_patterns(grammar::tv(t@), i as nat) == Some(
                (ast::patterns_model(ps@), c as nat),
            ) && i + c <= t.len(),
            None => grammar::sp_patterns(grammar::tv(t@), i as nat) is None,
        },
{
    proof {
        grammar::unfold_sp_patterns(grammar::tv(t@), i as nat);
    }
    match parse_pattern(t, i) {
        None => None,
        Some((p, c)) => {
            let mut first: Vec<Pattern> = Vec::new();
            let ghost pv = p@;
            first.push(p);
            proof {
                assert(ast::patterns_model(first@) =~= seq![pv]);
            }
            let (ps, d) = parse_patterns_rest(t, i + c, first);
            Some((ps, c + d))
        },
    }
}

fn parse_clause_body(t: &Vec<Token>, k: Keyword, i: usize) -> (r: Option<(Clause, usize)>)
    requires
        i <= t.len(),
    ensures
        match r {
            Some((cl, c)) => grammar::sp_clause_body(grammar::tv(t@), k, i as nat) == Some(
                (cl@, c as nat),
            ) && i + c <= t.len(),
            None => grammar::sp_clause_body(grammar::tv(t@), k, i as nat) is None,
        },
{
    proof {
        grammar::unfold_sp_clause_body(grammar::tv(t@), k, i as nat);
    }
    match k {
        Keyword::Optional => if kw_at_x(t, i, Keyword::Match) {
            match parse_patterns(t, i + 1) {
                Some((patterns, c)) => Some(
                    (Clause::Match(MatchClause { optional: true, patterns }), 1 + c),
                ),
                None => None,
            }
        } else {
            None
        },
        Keyword::Match => match parse_patterns(t, i) {
            Some((patterns, c)) => Some((Clause::Match(MatchClause { optional: false, patterns }), c)),
            None => None,
        },
        Keyword::Where => match parse_expr(t, i) {
            Some((e, c)) => Some((Clause::Where(e), c)),
            None => None,
        },
        Keyword::With => match parse_projection(t, i) {
            Some((p, c)) => Some((Clause::With(p), c)),
            None => None,
        },
        Keyword::Return => match parse_projection(t, i) {
            Some((p, c)) => Some((Clause::Return(p), c)),
            None => None,
        },
        Keyword::Order => if kw_at_x(t, i, Keyword::By) {
            match parse_order_item(t, i + 1) {
                Some((it, c)) => {
                    let mut first: Vec<OrderItem> = Vec::new();
                    let ghost itv = it@;
                    first.push(it);
                    proof {
                        assert(ast::orders_model(first@) =~= seq![itv]);
                    }
                    let (items, d) = parse_order_rest(t, i + 1 + c, first);
                    Some((Clause::OrderBy(items), 1 + c + d))
                },
                None => None,
            }
        } else {
            None
        },
        Keyword::Skip => match parse_expr(t, i) {
            Some((e, c)) => Some((Clause::Skip(e), c)),
            None => None,
        },
        Keyword::Limit => match parse_expr(t, i) {
            Some((e, c)) => Some((Clause::Limit(e), c)),
            None => None,
        },
        Keyword::Unwind => match parse_expr(t, i) {
            Some((e, c)) => if kw_at_x(t, i + c, Keyword::As) {
                match ident_at_x(t, i + c + 1) {
                    Some(var) => Some((Clause::Unwind { expr: e, var }, c + 2)),
                    None => None,
                }
            } else {
                None
            },
            None => None,
        },
        Keyword::Detach => if kw_at_x(t, i, Keyword::Delete) {
            match parse_exprs(t, i + 1) {
                Some((exprs, c)) => Some((Clause::Delete { detach: true, exprs }, 1 + c)),
                None => None,
            }
        } else {
            None
        },
        Keyword::Delete => match parse_exprs(t, i) {
            Some((exprs, c)) => Some((Clause::Delete { detach: false, exprs }, c)),
            None => None,
        },
        _ => None,
    }
}

/// The clauses from position `i` on, and the number of tokens they take.
fn parse_clauses(t: &Vec<Token>, i: usize) -> (r: (Vec<Clause>, usize))
    requires
        i <= t.len(),
    ensures
        grammar::sp_clauses(grammar::tv(t@), i as nat) == (ast::clauses_model(r.0@), r.1 as nat),
        i + r.1 <= t.len(),
{
    let ghost ts = grammar::tv(t@);
    let mut out: Vec<Clause> = Vec::new();
    let mut j: usize = i;
    let n = t.len();
    proof {
        assert(ast::clauses_model(out@) =~= Seq::<ast::SClause>::empty());
        assert(grammar::sp_clauses(ts, i as nat).0 =~= Seq::<ast::SClause>::empty() + grammar::sp_clauses(ts, i as nat).0);
    }
    loop
        invariant
            i <= j <= n,
            n == t.len(),
            ts == grammar::tv(t@),
            grammar::sp_clauses(ts, i as nat) == (
                ast::clauses_model(out@) + grammar::sp_clauses(ts, j as nat).0,
                (j - i) as nat + grammar::sp_clauses(ts, j as nat).1,
            ),
        decreases n - j,
    {
        proof {
            grammar::unfold_sp_clauses(ts, j as nat);
        }
        if j >= n {
            proof {
                assert(ast::clauses_model(out@) + Seq::<ast::SClause>::empty() =~= ast::clauses_model(out@));
            }
            return (out, j - i);
        }
        proof {
            lemma_tv_index(t@, j as int);
        }
        let k = match &t[j] {
            Token::Kw(k) => *k,
            _ => {
                proof {
                    assert(ast::clauses_model(out@) + Seq::<ast::SClause>::empty() =~= ast::clauses_model(out@));
                }
                return (out, j - i);
            },
        };
        match parse_clause_body(t, k, j + 1) {
            Some((cl, c)) => {
                let ghost old_out = out@;
                let ghost clv = cl@;
                proof {
                    ast::lemma_clauses_push(old_out, cl);
                    let rest = grammar::sp_clauses(ts, (j + 1 + c) as nat).0;
                    assert(ast::clauses_model(old_out) + (seq![clv] + rest) =~= ast::clauses_model(old_out).push(clv) + rest);
                }
                out.push(cl);
                j = j + 1 + c;
            },
            None => {
                proof {
                    assert(ast::clauses_model(out@) + Seq::<ast::SClause>::empty() =~= ast::clauses_model(out@));
                }
                return (out, j - i);
            },
        }
    }
}

/// The first integer literal that does not fit in an `i64`, if any.
fn first_big_int_x(t: &Vec<Token>) -> (r: Option<String>)
    ensures
        ast::opt_str(r) == grammar::first_big_int(grammar::tv(t@)),
{
    let ghost ts = grammar::tv(t@);
    let n = t.len();
    let mut k: usize = 0;
    proof {
        assert(ts.subrange(0, ts.len() as int) =~= ts);
    }
    while k < n
        invariant
            k <= n,
            n == t.len(),
            ts == grammar::tv(t@),
            ts.len() == n,
            grammar::first_big_int(ts) == grammar::first_big_int(ts.subrange(k as int, n as int)),
        decreases n - k,
    {
        proof {
            lemma_tv_index(t@, k as int);
            let sub = ts.subrange(k as int, n as int);
            assert(sub[0] == ts[k as int]);
            assert(sub.subrange(1, sub.len() as int) =~= ts.subrange(k + 1, n as int));
        }
        match &t[k] {
            Token::BigInt(s) => {
                return Some(s.clone());
            },
            _ => {},
        }
        k = k + 1;
    }
    proof {
        assert(ts.subrange(n as int, n as int).len() == 0);
    }
    None
}

/// Parse the text of an openCypher query into a [`Query`].
///
/// The result is the one [`grammar::spec_parse`] describes: a syntax error
/// (with the character position where parsing stopped) when the text does
/// not lex or no clause sequence takes all of its tokens, an `InvalidInt`
/// error for an integer literal outside the `i64` range, else the query.
pub fn parse(input: &str) -> (r: Result<Query, ParseError>)
    ensures
        match r {
            Ok(q) => grammar::spec_parse(input@) == Ok::<ast::SQuery, SParseError>(q@),
            Err(e) => grammar::spec_parse(input@) == Err::<ast::SQuery, SParseError>(e@),
        },
{
    let chars = text::chars_of(input);
    match tokenize(&chars) {
        Err(p) => Err(ParseError::Syntax { offset: p }),
        Ok((t, o)) => {
            let ghost pairs = token_pairs(t@, o@);
            proof {
                assert(pairs.map_values(|p: (SToken, nat)| p.0) =~= grammar::tv(t@));
            }
            let (clauses, c) = parse_clauses(&t, 0);
            if c < t.len() {
                Err(ParseError::Syntax { offset: o[c] })
            } else {
                match first_big_int_x(&t) {
                    Some(s) => Err(ParseError::InvalidInt(s)),
                    None => Ok(Query { clauses }),
                }
            }
        },
    }
}

} // verus!
