//! Instances of what optimizing promises of every plan: a second run
//! changes nothing, filters only move, columns stay, blockers hold.

use std::collections::HashSet;

use cypher_rs::{optimize, output_columns, parse, plan, Expr, Literal, Plan};

fn pq(src: &str) -> Plan {
    plan(&parse(src).unwrap()).unwrap()
}

/// The predicates of the filters of `p`, in a fixed walk order, and `p`
/// with its filters taken out.
fn filters(p: &Plan, preds: &mut Vec<String>) -> String {
    match p {
        Plan::Filter { input, pred } => {
            preds.push(format!("{pred:?}"));
            filters(input, preds)
        },
        Plan::Empty => "Empty".to_string(),
        Plan::Scan { var, label } => format!("Scan({var:?},{label:?})"),
        Plan::Expand { input, dst, .. } => format!("Expand({dst:?},{})", filters(input, preds)),
        Plan::Project { input, .. } => format!("Project({})", filters(input, preds)),
        Plan::Distinct { input } => format!("Distinct({})", filters(input, preds)),
        Plan::Sort { input, .. } => format!("Sort({})", filters(input, preds)),
        Plan::Skip { input, .. } => format!("Skip({})", filters(input, preds)),
        Plan::Limit { input, .. } => format!("Limit({})", filters(input, preds)),
        Plan::Cartesian { left, right } => {
            format!("Cartesian({},{})", filters(left, preds), filters(right, preds))
        },
        Plan::Optional { input, optional } => {
            format!("Optional({},{})", filters(input, preds), filters(optional, preds))
        },
        Plan::Unwind { input, var, .. } => format!("Unwind({var},{})", filters(input, preds)),
        Plan::Delete { input, .. } => format!("Delete({})", filters(input, preds)),
    }
}

const QUERIES: [&str; 4] = [
    "MATCH (u:User)-[r:R]->(v), (w {k: 1}) WHERE u.a = 1 AND w.b = 2 WITH u, w WHERE u.c = v.c \
     RETURN DISTINCT u ORDER BY u.d SKIP 1 LIMIT 3",
    "MATCH (a) OPTIONAL MATCH (a)-[:F]->(b) WHERE b.x = 1 WITH a, b WHERE a.y = 2 RETURN a, b",
    "MATCH (a), (b) WHERE 1 = 1 WITH a AS c WHERE c.z = 3 UNWIND c.l AS e DELETE c",
    "MATCH (a)-[r]->(b) WHERE r.w > 1 AND a.q = 2 RETURN b",
];

#[test]
fn second_optimization_changes_nothing() {
    for q in QUERIES {
        let once = optimize(pq(q));
        let twice = optimize(once.clone());
        assert_eq!(once, twice, "{q}");
    }
}

#[test]
fn optimization_only_moves_filters() {
    for q in QUERIES {
        let raw = pq(q);
        let opt = optimize(raw.clone());
        let mut before = Vec::new();
        let mut after = Vec::new();
        let shape_before = filters(&raw, &mut before);
        let shape_after = filters(&opt, &mut after);
        assert_eq!(shape_before, shape_after, "{q}");
        before.sort();
        after.sort();
        assert_eq!(before, after, "{q}");
    }
}

#[test]
fn optimization_keeps_output_columns() {
    for q in QUERIES {
        let raw = pq(q);
        let opt = optimize(raw.clone());
        let a: HashSet<String> = output_columns(&raw).into_iter().collect();
        let b: HashSet<String> = output_columns(&opt).into_iter().collect();
        assert_eq!(a, b, "{q}");
    }
}

#[test]
fn plan_without_filters_is_unchanged() {
    let raw = pq("MATCH (a)-[r]->(b), (c) OPTIONAL MATCH (d) RETURN a ORDER BY a.x SKIP 1 LIMIT 2");
    assert_eq!(optimize(raw.clone()), raw);
}

#[test]
fn filter_above_limit_skip_or_optional_stays() {
    let blockers = [
        Plan::Limit { input: Box::new(Plan::Scan { var: Some("u".into()), label: None }), count: Expr::Literal(Literal::Int(1)) },
        Plan::Skip { input: Box::new(Plan::Scan { var: Some("u".into()), label: None }), count: Expr::Literal(Literal::Int(1)) },
        Plan::Optional {
            input: Box::new(Plan::Scan { var: Some("u".into()), label: None }),
            optional: Box::new(Plan::Scan { var: Some("v".into()), label: None }),
        },
    ];
    for b in blockers {
        let p = Plan::Filter { input: Box::new(b.clone()), pred: Expr::Variable("u".into()) };
        assert_eq!(optimize(p.clone()), p);
    }
}

#[test]
fn filter_moves_below_expand_unless_it_uses_what_expand_binds() {
    let p = optimize(pq("MATCH (a)-[r]->(b) WHERE r.w > 1 AND a.q = 2 RETURN b"));
    match p {
        Plan::Project { input, .. } => assert!(matches!(*input, Plan::Filter { .. })),
        other => panic!("expected Project, got {other:?}"),
    }
    let p = optimize(pq("MATCH (a)-[r]->(b) WHERE a.q = 2 RETURN b"));
    match p {
        Plan::Project { input, .. } => match *input {
            Plan::Expand { input: ei, .. } => assert!(matches!(*ei, Plan::Filter { .. })),
            other => panic!("expected Expand, got {other:?}"),
        },
        other => panic!("expected Project, got {other:?}"),
    }
}

#[test]
fn filter_without_variables_stays_above_cartesian() {
    let p = optimize(pq("MATCH (a), (b) WHERE 1 = 1 RETURN a"));
    match p {
        Plan::Project { input, .. } => match *input {
            Plan::Filter { input: i2, .. } => assert!(matches!(*i2, Plan::Cartesian { .. })),
            other => panic!("expected Filter, got {other:?}"),
        },
        other => panic!("expected Project, got {other:?}"),
    }
}
