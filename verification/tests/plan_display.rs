//! The text of plans and plan errors.

use cypher_rs::{parse, plan, BinOp, Expr, Literal, Plan, PlanError, ProjectExpr, UnOp};

fn text_of(src: &str) -> String {
    plan(&parse(src).unwrap()).unwrap().to_string()
}

#[test]
fn readme_query_renders_as_indented_tree() {
    let s = text_of(
        "MATCH (u:User)-[:FOLLOWS]->(f:User) WHERE u.id = $uid \
         RETURN f.name AS name ORDER BY name DESC LIMIT 10",
    );
    let expected = "Limit { count: Literal(Int(10)) }\n\
                    └── Sort { keys: [Variable(\"name\") DESC] }\n    \
                    └── Project { exprs: [Property { base: Variable(\"f\"), key: \"name\" } AS name] }\n        \
                    └── Filter { pred: Binary { op: Eq, lhs: Property { base: Variable(\"u\"), key: \"id\" }, rhs: Param(\"uid\") } }\n            \
                    └── Expand { src: u, rel: _, types: [FOLLOWS], dir: ->, dst: f, dst_label: User }\n                \
                    └── Scan { var: u, label: User }\n";
    assert_eq!(s, expected);
}

#[test]
fn optional_renders_both_branches_at_one_depth() {
    let s = text_of("MATCH (a) OPTIONAL MATCH (b) RETURN a");
    let expected = "Project { exprs: [Variable(\"a\")] }\n\
                    └── Optional\n    \
                    └── Scan { var: a, label: _ }\n    \
                    └── Scan { var: b, label: _ }\n";
    assert_eq!(s, expected);
}

#[test]
fn unwind_distinct_skip_render() {
    let s = text_of("UNWIND [1, 2] AS x RETURN DISTINCT x SKIP 1");
    let expected = "Skip { count: Literal(Int(1)) }\n\
                    └── Distinct\n    \
                    └── Project { exprs: [Variable(\"x\")] }\n        \
                    └── Unwind { expr: List([Literal(Int(1)), Literal(Int(2))]), var: x }\n            \
                    └── Empty\n";
    assert_eq!(s, expected);
}

#[test]
fn delete_and_cartesian_render() {
    let s = text_of("MATCH (a), (b) DETACH DELETE a, b");
    let expected = "Delete { detach: true, exprs: [Variable(\"a\"), Variable(\"b\")] }\n\
                    └── Cartesian\n    \
                    └── Scan { var: a, label: _ }\n    \
                    └── Scan { var: b, label: _ }\n";
    assert_eq!(s, expected);
}

#[test]
fn incoming_and_undirected_expand_render_direction() {
    let s = text_of("MATCH (a)<-[r:X|Y]-(b)-[]-(c) RETURN c");
    let expected = "Project { exprs: [Variable(\"c\")] }\n\
                    └── Expand { src: b, rel: _, types: [], dir: --, dst: c, dst_label: _ }\n    \
                    └── Expand { src: a, rel: r, types: [X, Y], dir: <-, dst: b, dst_label: _ }\n        \
                    └── Scan { var: a, label: _ }\n";
    assert_eq!(s, expected);
}

#[test]
fn literals_render_in_debug_notation() {
    let s = text_of("RETURN true, null, 2.50, {k: -1}, $p IS NOT NULL");
    let expected = "Project { exprs: [Literal(Bool(true)), Literal(Null), Literal(Float(2.50)), \
                    Map([(\"k\", Unary { op: Neg, operand: Literal(Int(1)) })]), \
                    Unary { op: IsNotNull, operand: Param(\"p\") }] }\n\
                    └── Empty\n";
    assert_eq!(s, expected);
}

#[test]
fn negative_and_extreme_integers_render_in_decimal() {
    let p = Plan::Project {
        input: Box::new(Plan::Empty),
        exprs: vec![
            ProjectExpr { expr: Expr::Literal(Literal::Int(-42)), alias: None },
            ProjectExpr { expr: Expr::Literal(Literal::Int(i64::MIN)), alias: Some("m".to_string()) },
            ProjectExpr { expr: Expr::Literal(Literal::Int(i64::MAX)), alias: None },
            ProjectExpr { expr: Expr::Literal(Literal::Int(0)), alias: None },
        ],
    };
    assert_eq!(
        p.to_string(),
        "Project { exprs: [Literal(Int(-42)), Literal(Int(-9223372036854775808)) AS m, \
         Literal(Int(9223372036854775807)), Literal(Int(0))] }\n└── Empty\n"
    );
}

#[test]
fn strings_are_escaped_like_debug() {
    let p = Plan::Filter {
        input: Box::new(Plan::Empty),
        pred: Expr::Binary {
            op: BinOp::Contains,
            lhs: Box::new(Expr::Literal(Literal::String("a\"b\\c\td\n\u{1}".to_string()))),
            rhs: Box::new(Expr::Unary {
                op: UnOp::Not,
                operand: Box::new(Expr::Literal(Literal::String("é".to_string()))),
            }),
        },
    };
    let expected = "Filter { pred: Binary { op: Contains, lhs: Literal(String(\"a\\\"b\\\\c\\td\\n\\u{1}\")), \
                    rhs: Unary { op: Not, operand: Literal(String(\"é\")) } } }\n└── Empty\n";
    assert_eq!(p.to_string(), expected);
    assert_eq!(
        format!("{:?}", "a\"b\\c\td\n\u{1}"),
        "\"a\\\"b\\\\c\\td\\n\\u{1}\""
    );
}

#[test]
fn unprintable_characters_are_escaped_like_debug() {
    let p = Plan::Filter {
        input: Box::new(Plan::Empty),
        pred: Expr::Literal(Literal::String("x\u{85}y\u{7f}".to_string())),
    };
    let expected = format!(
        "Filter {{ pred: Literal(String({:?})) }}\n└── Empty\n",
        "x\u{85}y\u{7f}"
    );
    assert_eq!(p.to_string(), expected);
    assert_eq!(
        p.to_string(),
        "Filter { pred: Literal(String(\"x\\u{85}y\\u{7f}\")) }\n└── Empty\n"
    );
}

#[test]
fn plan_errors_have_messages() {
    assert_eq!(PlanError::EmptyQuery.to_string(), "plan: empty query");
    assert_eq!(
        PlanError::OptionalMatchWithoutAnchor.to_string(),
        "plan: OPTIONAL MATCH without a preceding pattern to extend"
    );
}
