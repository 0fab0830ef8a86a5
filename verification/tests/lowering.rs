//! Shapes of lowered plans: internal bindings, property filters, hops,
//! Cartesian joins and the stacking of projections.

use cypher_rs::{parse, plan, BinOp, Expr, Literal, Plan};

fn pq(src: &str) -> Plan {
    plan(&parse(src).unwrap()).unwrap()
}

fn prop_eq(var: &str, key: &str, value: Expr) -> Expr {
    Expr::Binary {
        op: BinOp::Eq,
        lhs: Box::new(Expr::Property {
            base: Box::new(Expr::Variable(var.to_string())),
            key: key.to_string(),
        }),
        rhs: Box::new(value),
    }
}

#[test]
fn anonymous_node_with_properties_gets_internal_binding() {
    let p = pq("MATCH (:User {id: 1}) RETURN 1");
    match p {
        Plan::Project { input, .. } => match *input {
            Plan::Filter { input: scan, pred } => {
                assert_eq!(pred, prop_eq("__node_0", "id", Expr::Literal(Literal::Int(1))));
                assert_eq!(
                    *scan,
                    Plan::Scan { var: Some("__node_0".to_string()), label: Some("User".to_string()) }
                );
            },
            other => panic!("expected Filter, got {other:?}"),
        },
        other => panic!("expected Project, got {other:?}"),
    }
}

#[test]
fn internal_bindings_are_numbered_in_order_across_the_query() {
    let p = pq("MATCH (a)-[:KNOWS {since: 2020}]->(:Person {name: 'x'}) MATCH ({k: 1}) RETURN a");
    let s = p.to_string();
    assert!(s.contains("rel: __rel_0"), "{s}");
    assert!(s.contains("dst: __node_1"), "{s}");
    assert!(s.contains("Scan { var: __node_2, label: _ }"), "{s}");
    // The relationship filter sits below the node filter.
    match p {
        Plan::Project { input, .. } => match *input {
            Plan::Cartesian { left, .. } => match *left {
                Plan::Filter { input: rel_filter, pred } => {
                    assert_eq!(
                        pred,
                        prop_eq("__node_1", "name", Expr::Literal(Literal::String("x".to_string())))
                    );
                    match *rel_filter {
                        Plan::Filter { input: expand, pred } => {
                            assert_eq!(pred, prop_eq("__rel_0", "since", Expr::Literal(Literal::Int(2020))));
                            assert!(matches!(*expand, Plan::Expand { .. }));
                        },
                        other => panic!("expected relationship filter, got {other:?}"),
                    }
                },
                other => panic!("expected node filter, got {other:?}"),
            },
            other => panic!("expected Cartesian, got {other:?}"),
        },
        other => panic!("expected Project, got {other:?}"),
    }
}

#[test]
fn several_properties_form_a_left_leaning_conjunction() {
    let p = pq("MATCH (u {a: 1, b: 2, c: 3}) RETURN u");
    let one = prop_eq("u", "a", Expr::Literal(Literal::Int(1)));
    let two = prop_eq("u", "b", Expr::Literal(Literal::Int(2)));
    let three = prop_eq("u", "c", Expr::Literal(Literal::Int(3)));
    let expected = Expr::Binary {
        op: BinOp::And,
        lhs: Box::new(Expr::Binary { op: BinOp::And, lhs: Box::new(one), rhs: Box::new(two) }),
        rhs: Box::new(three),
    };
    match p {
        Plan::Project { input, .. } => match *input {
            Plan::Filter { pred, .. } => assert_eq!(pred, expected),
            other => panic!("expected Filter, got {other:?}"),
        },
        other => panic!("expected Project, got {other:?}"),
    }
}

#[test]
fn hops_thread_the_source_variable() {
    let p = pq("MATCH (a)-[:R]->(b)-[:S]->(c) RETURN c");
    match p {
        Plan::Project { input, .. } => match *input {
            Plan::Expand { input: inner, src, dst, rel_types, .. } => {
                assert_eq!(src.as_deref(), Some("b"));
                assert_eq!(dst.as_deref(), Some("c"));
                assert_eq!(rel_types, vec!["S".to_string()]);
                match *inner {
                    Plan::Expand { src, dst, .. } => {
                        assert_eq!(src.as_deref(), Some("a"));
                        assert_eq!(dst.as_deref(), Some("b"));
                    },
                    other => panic!("expected inner Expand, got {other:?}"),
                }
            },
            other => panic!("expected Expand, got {other:?}"),
        },
        other => panic!("expected Project, got {other:?}"),
    }
}

#[test]
fn patterns_join_left_deep() {
    let p = pq("MATCH (a), (b), (c) RETURN a");
    match p {
        Plan::Project { input, .. } => match *input {
            Plan::Cartesian { left, right } => {
                assert!(matches!(*right, Plan::Scan { var: Some(ref v), .. } if v == "c"));
                assert!(matches!(*left, Plan::Cartesian { .. }));
            },
            other => panic!("expected Cartesian, got {other:?}"),
        },
        other => panic!("expected Project, got {other:?}"),
    }
}

#[test]
fn match_after_with_joins_the_projection() {
    let p = pq("MATCH (a) WITH a MATCH (b) RETURN a, b");
    match p {
        Plan::Project { input, .. } => match *input {
            Plan::Cartesian { left, right } => {
                assert!(matches!(*left, Plan::Project { .. }));
                assert!(matches!(*right, Plan::Scan { .. }));
            },
            other => panic!("expected Cartesian, got {other:?}"),
        },
        other => panic!("expected Project, got {other:?}"),
    }
}

#[test]
fn projection_stacks_project_distinct_sort_skip_limit() {
    let p = pq("MATCH (u) RETURN DISTINCT u ORDER BY u.x SKIP 1 LIMIT 2");
    let s = p.to_string();
    let order: Vec<usize> = ["Limit", "Skip", "Sort", "Distinct", "Project", "Scan"]
        .iter()
        .map(|name| s.find(name).unwrap())
        .collect();
    assert!(order.windows(2).all(|w| w[0] < w[1]), "{s}");
}

#[test]
fn where_after_with_filters_the_projection() {
    let p = pq("MATCH (u) WITH u.x AS x WHERE x > 1 RETURN x");
    match p {
        Plan::Project { input, .. } => match *input {
            Plan::Filter { input: i2, .. } => assert!(matches!(*i2, Plan::Project { .. })),
            other => panic!("expected Filter, got {other:?}"),
        },
        other => panic!("expected Project, got {other:?}"),
    }
}

#[test]
fn return_without_match_projects_the_empty_row() {
    assert_eq!(
        pq("RETURN 1"),
        Plan::Project {
            input: Box::new(Plan::Empty),
            exprs: vec![cypher_rs::ProjectExpr { expr: Expr::Literal(Literal::Int(1)), alias: None }],
        }
    );
}

#[test]
fn delete_wraps_the_plan_so_far() {
    let p = pq("MATCH (n) DELETE n");
    assert_eq!(
        p,
        Plan::Delete {
            input: Box::new(Plan::Scan { var: Some("n".to_string()), label: None }),
            detach: false,
            exprs: vec![Expr::Variable("n".to_string())],
        }
    );
}

#[test]
fn first_label_is_the_scan_label() {
    let p = pq("MATCH (u:A:B) RETURN u");
    assert!(p.to_string().contains("Scan { var: u, label: A }"));
}

#[test]
fn where_after_return_filters_below_the_projection() {
    let p = pq("MATCH (u) RETURN u WHERE true");
    match p {
        Plan::Project { input, .. } => match *input {
            Plan::Filter { input: i2, .. } => assert!(matches!(*i2, Plan::Scan { .. })),
            other => panic!("expected Filter, got {other:?}"),
        },
        other => panic!("expected Project, got {other:?}"),
    }
}

#[test]
fn order_by_before_return_sorts_above_the_projection() {
    let p = pq("MATCH (u) ORDER BY u.x RETURN u");
    match p {
        Plan::Sort { input, .. } => assert!(matches!(*input, Plan::Project { .. })),
        other => panic!("expected Sort, got {other:?}"),
    }
}

#[test]
fn two_returns_share_one_projection_stack() {
    let p = pq("MATCH (u) RETURN u LIMIT 1 RETURN u");
    let s = p.to_string();
    assert_eq!(s.matches("Project").count(), 1, "{s}");
}

#[test]
fn internal_bindings_pass_over_names_the_query_binds() {
    let p = pq("MATCH (__node_0), ({k: 1})-[:R {w: 2}]->(__rel_1) RETURN __node_0");
    let s = p.to_string();
    assert!(s.contains("Scan { var: __node_0, label: _ }"), "{s}");
    assert!(s.contains("Scan { var: __node_1, label: _ }"), "{s}");
    assert!(s.contains("rel: __rel_2"), "{s}");
    assert!(s.contains("key: \"k\""), "{s}");
    let filters: Vec<&str> = s.lines().filter(|l| l.contains("Filter")).collect();
    assert_eq!(filters.len(), 2, "{s}");
    assert!(filters.iter().any(|l| l.contains("Variable(\"__node_1\")")), "{s}");
    assert!(filters.iter().any(|l| l.contains("Variable(\"__rel_2\")")), "{s}");
}
