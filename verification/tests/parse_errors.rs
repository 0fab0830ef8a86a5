//! The errors of the parser and of the planner, and the inputs that raise them.

use cypher_rs::{parse, plan, Clause, Expr, Literal, MatchClause, ParseError, PlanError, Query};

#[test]
fn unclosed_node_is_a_syntax_error_at_the_clause() {
    assert_eq!(
        parse("MATCH (u RETURN u"),
        Err(ParseError::Syntax { offset: 0 })
    );
}

#[test]
fn missing_limit_count_is_a_syntax_error_at_limit() {
    assert_eq!(
        parse("MATCH (u) RETURN u LIMIT"),
        Err(ParseError::Syntax { offset: 19 })
    );
}

#[test]
fn character_that_starts_no_token_is_a_syntax_error_there() {
    assert_eq!(parse("RETURN 1 # 2"), Err(ParseError::Syntax { offset: 9 }));
    assert_eq!(parse("RETURN 'open"), Err(ParseError::Syntax { offset: 7 }));
    assert_eq!(parse("RETURN $"), Err(ParseError::Syntax { offset: 7 }));
}

#[test]
fn offsets_count_characters_not_bytes() {
    assert_eq!(
        parse("RETURN 'é' ORDER u"),
        Err(ParseError::Syntax { offset: 11 })
    );
}

#[test]
fn integer_beyond_i64_is_invalid_int() {
    assert_eq!(
        parse("RETURN 99999999999999999999"),
        Err(ParseError::InvalidInt("99999999999999999999".to_string()))
    );
    assert_eq!(
        parse("RETURN 9223372036854775808"),
        Err(ParseError::InvalidInt("9223372036854775808".to_string()))
    );
}

#[test]
fn largest_i64_is_an_int() {
    let q = parse("RETURN 9223372036854775807").unwrap();
    match &q.clauses[0] {
        Clause::Return(r) => assert_eq!(r.items[0].expr, Expr::Literal(Literal::Int(i64::MAX))),
        other => panic!("expected RETURN, got {other:?}"),
    }
}

#[test]
fn syntax_error_comes_before_invalid_int() {
    assert_eq!(
        parse("RETURN 99999999999999999999 ORDER x"),
        Err(ParseError::Syntax { offset: 28 })
    );
}

#[test]
fn empty_text_is_an_empty_query() {
    assert_eq!(parse("  \n\t "), Ok(Query { clauses: vec![] }));
}

#[test]
fn query_without_clauses_has_no_plan() {
    let q = parse("").unwrap();
    assert_eq!(plan(&q), Err(PlanError::EmptyQuery));
}

#[test]
fn match_without_patterns_has_no_plan() {
    let q = Query {
        clauses: vec![Clause::Match(MatchClause { optional: false, patterns: vec![] })],
    };
    assert_eq!(plan(&q), Err(PlanError::EmptyQuery));
}

#[test]
fn optional_match_first_has_no_anchor() {
    let q = parse("OPTIONAL MATCH (n) RETURN n").unwrap();
    assert_eq!(plan(&q), Err(PlanError::OptionalMatchWithoutAnchor));
}

#[test]
fn optional_match_after_unwind_is_anchored() {
    let q = parse("UNWIND [1] AS x OPTIONAL MATCH (n) RETURN n").unwrap();
    assert!(plan(&q).is_ok());
}

#[test]
fn keyword_case_gives_the_same_parse() {
    let pairs = [
        ("MATCH (u) RETURN u SKIP 3", "match (u) Return u skip 3"),
        ("MATCH (u) WITH DISTINCT u RETURN u", "MaTcH (u) with distinct u rEtUrN u"),
        ("RETURN true XOR false, null IS NULL", "return TRUE xor FALSE, NULL is null"),
        ("UNWIND [1] AS x RETURN x", "unwind [1] as x return x"),
        ("MATCH (n) DETACH DELETE n", "match (n) detach delete n"),
        ("MATCH (n) WHERE n.a STARTS WITH 'x' RETURN n", "match (n) where n.a starts with 'x' return n"),
    ];
    for (a, b) in pairs {
        assert_eq!(parse(a), parse(b), "{a} / {b}");
        assert!(parse(a).is_ok(), "{a}");
    }
    // Outside keywords case matters: identifiers keep their spelling.
    assert_ne!(parse("MATCH (u) RETURN u"), parse("MATCH (U) RETURN U"));
    // A failing text fails at the same place in either case.
    assert_eq!(parse("MATCH (u RETURN u"), parse("match (u return u"));
}
