//! Sets of variable names, held in a `Vec<String>` in which no name occurs
//! twice, and the variables that an expression uses.
use vstd::prelude::*;

use crate::ast;
use crate::ast::{Expr, SExpr};

verus! {

broadcast use vstd::seq_lib::group_seq_properties;

/// The names in `v`, as a set.
pub open spec fn name_set(v: Seq<String>) -> Set<Seq<char>> {
    ast::strs(v).to_set()
}

/// No name occurs twice in `v`.
pub open spec fn distinct_names(v: Seq<String>) -> bool {
    ast::strs(v).no_duplicates()
}

/// The variables that `e` refers to.
pub open spec fn used_vars(e: SExpr) -> Set<Seq<char>>
    decreases e,
{
    match e {
        SExpr::Var(v) => Set::empty().insert(v),
        SExpr::Prop(b, _) => used_vars(*b),
        SExpr::Bin(_, l, r) => used_vars(*l).union(used_vars(*r)),
        SExpr::Un(_, x) => used_vars(*x),
        SExpr::List(items) => used_vars_list(items),
        SExpr::MapLit(entries) => used_vars_entries(entries),
        SExpr::Lit(_) => Set::empty(),
        SExpr::Param(_) => Set::empty(),
    }
}

pub open spec fn used_vars_list(s: Seq<SExpr>) -> Set<Seq<char>>
    decreases s,
{
    if s.len() == 0 {
        Set::empty()
    } else {
        used_vars_list(s.subrange(0, s.len() - 1)).union(used_vars(s[s.len() - 1]))
    }
}

pub open spec fn used_vars_entries(s: Seq<(Seq<char>, SExpr)>) -> Set<Seq<char>>
    decreases s,
{
    if s.len() == 0 {
        Set::empty()
    } else {
        used_vars_entries(s.subrange(0, s.len() - 1)).union(used_vars(s[s.len() - 1].1))
    }
}

proof fn lemma_strs_index(v: Seq<String>, i: int)
    requires
        0 <= i < v.len(),
    ensures
        ast::strs(v)[i] == v[i]@,
        ast::strs(v).len() == v.len(),
{
}

/// An empty set of names.
pub fn no_names() -> (r: Vec<String>)
    ensures
        name_set(r@) == Set::<Seq<char>>::empty(),
        distinct_names(r@),
{
    let r: Vec<String> = Vec::new();
    proof {
        assert(ast::strs(r@) =~= Seq::<Seq<char>>::empty());
        assert(name_set(r@) =~= Set::<Seq<char>>::empty());
    }
    r
}

/// Whether `s` is in `v`.
pub fn contains_name(v: &Vec<String>, s: &String) -> (r: bool)
    ensures
        r == name_set(v@).contains(s@),
{
    let mut i: usize = 0;
    while i < v.len()
        invariant
            i <= v@.len(),
            forall|j: int| 0 <= j < i ==> v@[j]@ != s@,
        decreases v@.len() - i,
    {
        if v[i] == *s {
            proof {
                lemma_strs_index(v@, i as int);
                assert(ast::strs(v@).contains(s@));
            }
            return true;
        }
        i = i + 1;
    }
    proof {
        if ast::strs(v@).contains(s@) {
            let j = choose|j: int| 0 <= j < ast::strs(v@).len() && ast::strs(v@)[j] == s@;
            lemma_strs_index(v@, j);
        }
    }
    false
}

/// Adds `s` to `v` unless it is there already.
pub fn insert_name(v: &mut Vec<String>, s: String)
    requires
        distinct_names(old(v)@),
    ensures
        distinct_names(final(v)@),
        name_set(final(v)@) == name_set(old(v)@).insert(s@),
{
    if contains_name(v, &s) {
        proof {
            assert(name_set(v@) =~= name_set(v@).insert(s@));
        }
    } else {
        let ghost before = v@;
        proof {
            ast::lemma_strs_push(before, s);
        }
        v.push(s);
        proof {
            let sb = ast::strs(before);
            assert(ast::strs(v@) == sb.push(s@));
            assert forall|x: Seq<char>| #[trigger] name_set(v@).contains(x) == name_set(
                before,
            ).insert(s@).contains(x) by {
                if sb.push(s@).contains(x) {
                    let j = choose|j: int| 0 <= j < sb.push(s@).len() && sb.push(s@)[j] == x;
                    if j < sb.len() {
                        assert(sb[j] == x);
                    }
                }
                if sb.contains(x) {
                    let j = choose|j: int| 0 <= j < sb.len() && sb[j] == x;
                    assert(sb.push(s@)[j] == x);
                }
                if x == s@ {
                    assert(sb.push(s@)[sb.len() as int] == x);
                }
            }
            assert(name_set(v@) =~= name_set(before).insert(s@));
            assert forall|i: int, j: int|
                0 <= i < ast::strs(v@).len() && 0 <= j < ast::strs(v@).len() && i != j implies ast::strs(
                v@,
            )[i] != ast::strs(v@)[j] by {
                if i < sb.len() && j < sb.len() {
                } else if i < sb.len() {
                    assert(sb.contains(sb[i]));
                } else {
                    assert(sb.contains(sb[j]));
                }
            }
        }
    }
}

/// Adds every name of `w` to `v`.
pub fn extend_names(v: &mut Vec<String>, w: &Vec<String>)
    requires
        distinct_names(old(v)@),
    ensures
        distinct_names(final(v)@),
        name_set(final(v)@) == name_set(old(v)@).union(name_set(w@)),
{
    let mut i: usize = 0;
    while i < w.len()
        invariant
            i <= w@.len(),
            distinct_names(v@),
            name_set(v@) == name_set(old(v)@).union(ast::strs(w@).take(i as int).to_set()),
        decreases w@.len() - i,
    {
        proof {
            lemma_strs_index(w@, i as int);
            assert(ast::strs(w@).take(i + 1).to_set() =~= ast::strs(w@).take(i as int).to_set().insert(
                w@[i as int]@,
            )) by {
                assert forall|x: Seq<char>| #[trigger] ast::strs(w@).take(i + 1).contains(x)
                    == ast::strs(w@).take(i as int).to_set().insert(w@[i as int]@).contains(x) by {
                    let t1 = ast::strs(w@).take(i + 1);
                    let t0 = ast::strs(w@).take(i as int);
                    if t1.contains(x) {
                        let j = choose|j: int| 0 <= j < t1.len() && t1[j] == x;
                        if j < i {
                            assert(t0[j] == x);
                        }
                    }
                    if t0.contains(x) {
                        let j = choose|j: int| 0 <= j < t0.len() && t0[j] == x;
                        assert(t1[j] == x);
                    }
                    if x == w@[i as int]@ {
                        assert(t1[i as int] == x);
                    }
                }
            }
        }
        insert_name(v, w[i].clone());
        i = i + 1;
    }
    proof {
        assert(ast::strs(w@).take(w@.len() as int) =~= ast::strs(w@));
    }
}

/// Whether `a` and `b` have no name in common.
pub fn names_disjoint(a: &Vec<String>, b: &Vec<String>) -> (r: bool)
    ensures
        r == name_set(a@).disjoint(name_set(b@)),
{
    let mut i: usize = 0;
    while i < a.len()
        invariant
            i <= a@.len(),
            forall|j: int| 0 <= j < i ==> !name_set(b@).contains(#[trigger] a@[j]@),
        decreases a@.len() - i,
    {
        if contains_name(b, &a[i]) {
            proof {
                lemma_strs_index(a@, i as int);
                assert(name_set(a@).contains(a@[i as int]@));
            }
            return false;
        }
        i = i + 1;
    }
    proof {
        assert forall|x: Seq<char>| name_set(a@).contains(x) implies !name_set(b@).contains(x) by {
            let j = choose|j: int| 0 <= j < ast::strs(a@).len() && ast::strs(a@)[j] == x;
            lemma_strs_index(a@, j);
        }
    }
    true
}

/// Whether every name of `a` is in `b`.
pub fn names_subset(a: &Vec<String>, b: &Vec<String>) -> (r: bool)
    ensures
        r == name_set(a@).subset_of(name_set(b@)),
{
    let mut i: usize = 0;
    while i < a.len()
        invariant
            i <= a@.len(),
            forall|j: int| 0 <= j < i ==> name_set(b@).contains(#[trigger] a@[j]@),
        decreases a@.len() - i,
    {
        if !contains_name(b, &a[i]) {
            proof {
                lemma_strs_index(a@, i as int);
                assert(name_set(a@).contains(a@[i as int]@));
            }
            return false;
        }
        i = i + 1;
    }
    proof {
        assert forall|x: Seq<char>| name_set(a@).contains(x) implies name_set(b@).contains(x) by {
            let j = choose|j: int| 0 <= j < ast::strs(a@).len() && ast::strs(a@)[j] == x;
            lemma_strs_index(a@, j);
        }
    }
    true
}

/// Whether `v` holds no name.
pub fn names_empty(v: &Vec<String>) -> (r: bool)
    ensures
        r == name_set(v@).is_empty(),
{
    if v.len() == 0 {
        proof {
            assert(name_set(v@) =~= Set::<Seq<char>>::empty());
        }
        true
    } else {
        proof {
            lemma_strs_index(v@, 0);
            assert(name_set(v@).contains(v@[0]@));
        }
        false
    }
}

/// Adds the variables that `e` refers to to `out`.
pub fn walk_expr(e: &Expr, out: &mut Vec<String>)
    requires
        distinct_names(old(out)@),
    ensures
        distinct_names(final(out)@),
        name_set(final(out)@) == name_set(old(out)@).union(used_vars(e@)),
    decreases e,
{
    match e {
        Expr::Variable(v) => {
            insert_name(out, v.clone());
            proof {
                assert(name_set(old(out)@).insert(v@) =~= name_set(old(out)@).union(
                    Set::empty().insert(v@),
                ));
            }
        },
        Expr::Property { base, .. } => walk_expr(base, out),
        Expr::Binary { lhs, rhs, .. } => {
            walk_expr(lhs, out);
            walk_expr(rhs, out);
            proof {
                assert(name_set(old(out)@).union(used_vars(lhs@)).union(used_vars(rhs@)) =~= name_set(
                    old(out)@,
                ).union(used_vars(lhs@).union(used_vars(rhs@))));
            }
        },
        Expr::Unary { operand, .. } => walk_expr(operand, out),
        Expr::List(items) => {
            let ghost m = ast::exprs_model(items@);
            proof {
                ast::lemma_exprs_model_len(items@);
            }
            let mut k: usize = 0;
            while k < items.len()
                invariant
                    k <= items@.len(),
                    *e == Expr::List(*items),
                    m == ast::exprs_model(items@),
                    m.len() == items@.len(),
                    forall|j: int| 0 <= j < items@.len() ==> #[trigger] m[j] == items@[j]@,
                    distinct_names(out@),
                    name_set(out@) == name_set(old(out)@).union(used_vars_list(m.take(k as int))),
                decreases items@.len() - k,
            {
                proof {
                    assert(decreases_to!(*e => (*e)->List_0));
                    assert(m.take(k + 1).subrange(0, k as int) =~= m.take(k as int));
                    assert(m.take(k + 1)[k as int] == m[k as int]);
                }
                let ghost before = out@;
                walk_expr(&items[k], out);
                proof {
                    assert(name_set(before).union(used_vars(items@[k as int]@)) =~= name_set(
                        old(out)@,
                    ).union(used_vars_list(m.take(k + 1))));
                }
                k = k + 1;
            }
            proof {
                assert(m.take(items@.len() as int) =~= m);
            }
        },
        Expr::MapLit(entries) => {
            let ghost m = ast::entries_model(entries@);
            proof {
                ast::lemma_entries_model_len(entries@);
            }
            let mut k: usize = 0;
            while k < entries.len()
                invariant
                    k <= entries@.len(),
                    *e == Expr::MapLit(*entries),
                    m == ast::entries_model(entries@),
                    m.len() == entries@.len(),
                    forall|j: int|
                        0 <= j < entries@.len() ==> #[trigger] m[j] == (
                            entries@[j].0@,
                            entries@[j].1@,
                        ),
                    distinct_names(out@),
                    name_set(out@) == name_set(old(out)@).union(used_vars_entries(m.take(k as int))),
                decreases entries@.len() - k,
            {
                proof {
                    assert(decreases_to!(*e => (*e)->MapLit_0));
                    assert(m.take(k + 1).subrange(0, k as int) =~= m.take(k as int));
                    assert(m.take(k + 1)[k as int] == m[k as int]);
                }
                let ghost before = out@;
                walk_expr(&entries[k].1, out);
                proof {
                    assert(name_set(before).union(used_vars(entries@[k as int].1@)) =~= name_set(
                        old(out)@,
                    ).union(used_vars_entries(m.take(k + 1))));
                }
                k = k + 1;
            }
            proof {
                assert(m.take(entries@.len() as int) =~= m);
            }
        },
        Expr::Literal(_) => {
            proof {
                assert(name_set(old(out)@).union(Set::empty()) =~= name_set(old(out)@));
            }
        },
        Expr::Param(_) => {
            proof {
                assert(name_set(old(out)@).union(Set::empty()) =~= name_set(old(out)@));
            }
        },
    }
}

/// The variables that `e` refers to, each once.
pub fn used_vars_expr(e: &Expr) -> (r: Vec<String>)
    ensures
        distinct_names(r@),
        name_set(r@) == used_vars(e@),
{
    let mut out = no_names();
    walk_expr(e, &mut out);
    proof {
        assert(Set::<Seq<char>>::empty().union(used_vars(e@)) =~= used_vars(e@));
    }
    out
}

} // verus!
