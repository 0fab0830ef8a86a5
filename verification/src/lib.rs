//! openCypher front-end: lexer, parser, semantic analysis, logical
//! planning, predicate-pushdown optimization and projection-pruning
//! analysis.
//!
//! ```text
//! parse(text) -> Query -> analyze(&query) -> AnalysisReport
//!                      -> plan(&query) -> Plan -> optimize(plan) -> Plan
//! ```
pub mod ast;
pub mod error;
pub mod lexer;
pub mod grammar;
pub mod parser;
pub mod text;
pub mod names;
pub mod plan;
pub mod plan_text;
pub mod optimize;
pub mod prune;
pub mod sema;

pub use ast::{
    BinOp, Clause, Direction, Expr, Literal, MatchClause, NodePattern, OrderItem, Pattern, Query,
    RelChain, RelPattern, ReturnClause, ReturnItem, UnOp,
};
pub use error::ParseError;
pub use optimize::optimize;
pub use parser::parse;
pub use plan::{plan, Plan, PlanError, ProjectExpr, SortKey};
pub use prune::{output_columns, required_input_columns};
pub use sema::{
    analyze, analyze_with, analyze_with_verdicts, AnalysisReport, PermissiveSchema, Schema,
    SemIssue, SemSeverity,
};
