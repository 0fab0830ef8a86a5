//! Semantic analysis: bindings, issue texts and order, schema verdicts.

use std::collections::HashSet;

use cypher_rs::{
    analyze, analyze_with, analyze_with_verdicts, parse, AnalysisReport, PermissiveSchema, Schema,
    SemIssue, SemSeverity,
};

fn unbound(name: &str) -> SemIssue {
    SemIssue {
        severity: SemSeverity::Error,
        code: "unbound-variable",
        message: format!(
            "unbound variable `{name}` (introduce it in a MATCH pattern, or use $name for a parameter)"
        ),
    }
}

#[test]
fn unbound_variable_issue_text() {
    let r = analyze(&parse("MATCH (u) RETURN x").unwrap());
    assert_eq!(r.issues, vec![unbound("x")]);
}

#[test]
fn issues_follow_clause_and_text_order() {
    let q = parse("MATCH (u) WHERE a.x = b RETURN [c, {k: d}], u ORDER BY e SKIP f LIMIT g").unwrap();
    let r = analyze(&q);
    let names: Vec<SemIssue> = ["a", "b", "c", "d", "e", "f", "g"].iter().map(|n| unbound(n)).collect();
    assert_eq!(r.issues, names);
}

#[test]
fn every_occurrence_is_reported() {
    let r = analyze(&parse("MATCH (u) RETURN x, x.y").unwrap());
    assert_eq!(r.issues, vec![unbound("x"), unbound("x")]);
}

#[test]
fn bindings_hold_each_name_once() {
    let q = parse("MATCH (a)-[r]->(b), (a) WITH b AS c UNWIND [1] AS d RETURN c").unwrap();
    let r = analyze(&q);
    let set: HashSet<&str> = r.bindings.iter().map(|s| s.as_str()).collect();
    assert_eq!(set, ["a", "r", "b", "c", "d"].into_iter().collect());
    assert_eq!(r.bindings.len(), 5);
}

#[test]
fn later_bindings_count_for_earlier_references() {
    let r = analyze(&parse("MATCH (u) WHERE v.x = 1 MATCH (v) RETURN u").unwrap());
    assert!(r.issues.is_empty(), "{:?}", r.issues);
}

#[test]
fn parameters_and_return_aliases_are_not_checked_as_bindings() {
    let r = analyze(&parse("MATCH (u) WHERE u.id = $id RETURN u.name AS n ORDER BY n").unwrap());
    assert_eq!(r.issues, vec![unbound("n")]);
}

#[test]
fn verdicts_decide_labels_and_types_in_text_order() {
    let q = parse("MATCH (a:A)-[:R|S]->(b:B) RETURN a").unwrap();
    let r = analyze_with_verdicts(&q, &vec![true, false], &vec![false, true]);
    assert_eq!(
        r.issues,
        vec![
            SemIssue {
                severity: SemSeverity::Error,
                code: "unknown-rel-type",
                message: "unknown relationship type `R`".to_string(),
            },
            SemIssue {
                severity: SemSeverity::Error,
                code: "unknown-label",
                message: "unknown label `B`".to_string(),
            },
        ]
    );
}

#[test]
fn missing_verdicts_approve() {
    let q = parse("MATCH (a:A:B:C) RETURN a").unwrap();
    let r = analyze_with_verdicts(&q, &vec![false], &vec![]);
    assert_eq!(r.issues.len(), 1);
    assert_eq!(r.issues[0].message, "unknown label `A`");
}

struct NoLabels;

impl Schema for NoLabels {
    fn has_label(&self, _label: &str) -> bool {
        false
    }
}

#[test]
fn schema_is_asked_about_every_label() {
    let q = parse("MATCH (a:A:B)-[:R]->(c:C) RETURN a").unwrap();
    let r = analyze_with(&q, &NoLabels);
    let msgs: Vec<&str> = r.issues.iter().map(|i| i.message.as_str()).collect();
    assert_eq!(msgs, vec!["unknown label `A`", "unknown label `B`", "unknown label `C`"]);
}

#[test]
fn permissive_schema_matches_analyze() {
    let q = parse("MATCH (a:A)-[:R]->(c:C) WHERE z = 1 RETURN a").unwrap();
    assert_eq!(analyze_with(&q, &PermissiveSchema), analyze(&q));
}

#[test]
fn without_schema_only_variables_are_reported() {
    let q = parse("MATCH (u:Nope)-[:NOPE]->(v:Nada) RETURN x").unwrap();
    let r = analyze(&q);
    assert!(r.issues.iter().all(|i| i.code == "unbound-variable"));
    assert_eq!(r.issues.len(), 1);
}

#[test]
fn errors_keep_only_error_severity() {
    let report = AnalysisReport {
        bindings: vec![],
        issues: vec![
            SemIssue { severity: SemSeverity::Warning, code: "w", message: "w".to_string() },
            unbound("x"),
        ],
    };
    assert_eq!(report.errors(), vec![unbound("x")]);
    assert!(report.has_errors());
    let warnings_only = AnalysisReport {
        bindings: vec![],
        issues: vec![SemIssue { severity: SemSeverity::Warning, code: "w", message: "w".to_string() }],
    };
    assert!(warnings_only.errors().is_empty());
    assert!(!warnings_only.has_errors());
    assert!(!AnalysisReport::default().has_errors());
}

#[test]
fn delete_and_unwind_expressions_are_checked() {
    let r = analyze(&parse("MATCH (n) UNWIND m.l AS k DETACH DELETE n, k, z").unwrap());
    assert_eq!(r.issues, vec![unbound("m"), unbound("z")]);
}

#[test]
fn approving_verdicts_give_the_report_without_verdicts() {
    let q = parse("MATCH (a:A:B)-[r:T|U]->(b:C) WHERE z.k = 1 RETURN a").unwrap();
    let plain = analyze(&q);
    let approving = analyze_with_verdicts(&q, &vec![true, true, true], &vec![true, true]);
    let longer = analyze_with_verdicts(&q, &vec![true; 7], &vec![true; 5]);
    assert_eq!(approving, plain);
    assert_eq!(longer, plain);
    assert_eq!(analyze_with(&q, &PermissiveSchema), plain);
}

struct Recording {
    asked: std::cell::RefCell<Vec<String>>,
}

impl Schema for Recording {
    fn has_label(&self, label: &str) -> bool {
        self.asked.borrow_mut().push(format!("label {label}"));
        label != "B"
    }

    fn has_rel_type(&self, rel_type: &str) -> bool {
        self.asked.borrow_mut().push(format!("type {rel_type}"));
        rel_type == "R"
    }
}

#[test]
fn schema_is_asked_once_per_occurrence_and_refusals_are_reported() {
    let q = parse("MATCH (a:A:B)-[:R|S]->(b:B) MATCH (c)-[:T]-(d:B) RETURN a").unwrap();
    let s = Recording { asked: std::cell::RefCell::new(Vec::new()) };
    let r = analyze_with(&q, &s);
    assert_eq!(
        *s.asked.borrow(),
        vec!["label A", "label B", "type R", "type S", "label B", "type T", "label B"]
    );
    let codes: Vec<&str> = r.issues.iter().map(|i| i.code).collect();
    assert_eq!(codes.iter().filter(|c| **c == "unknown-label").count(), 3);
    assert_eq!(codes.iter().filter(|c| **c == "unknown-rel-type").count(), 2);
    let msgs: Vec<&str> = r.issues.iter().map(|i| i.message.as_str()).collect();
    assert_eq!(
        msgs,
        vec![
            "unknown label `B`",
            "unknown relationship type `S`",
            "unknown label `B`",
            "unknown relationship type `T`",
            "unknown label `B`",
        ]
    );
}

#[test]
fn reports_can_be_cloned() {
    let r = analyze(&parse("MATCH (u) RETURN x").unwrap());
    assert_eq!(r.clone(), r);
}
