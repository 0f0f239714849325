#![verifier::loop_isolation(false)]
//! Semantic analysis for the Veln language: diagnostics, type checking of
//! function bodies, effect boundaries, schema declarations and the predicate
//! reasoning behind typed-hole repairs.
pub mod ast;
pub mod body_checks;
pub mod body_diagnostics;
pub mod body_lines;
pub mod boundary;
pub mod bounds;
pub mod candidates;
pub mod checker;
pub mod clause_implies;
pub mod clauses;
pub mod decimal;
pub mod declarations;
pub mod diag;
pub mod dicts;
pub mod disequality;
pub mod effect_boundary;
pub mod effect_labels;
pub mod effect_rows;
pub mod env;
pub mod equivalences;
pub mod exhaustiveness;
pub mod expressions;
pub mod field_access;
pub mod function_body;
pub mod handle;
pub mod handlers;
pub mod implication;
pub mod infer;
pub mod json;
pub mod laws;
pub mod names;
pub mod names_infer;
pub mod numeric;
pub mod ordering;
pub mod patterns;
pub mod perform;
pub mod predicate_text;
pub mod records;
pub mod relations;
pub mod render;
pub mod repair;
pub mod schema;
pub mod schema_dispatch;
pub mod schema_layout;
pub mod semantic;
pub mod soundness;
pub mod text;
pub mod types;
