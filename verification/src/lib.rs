//! A deterministic mathematics engine: digit-level arithmetic grounded in
//! fact tables, a library of mathematical rules with prerequisite chains,
//! an expression parser and classifier, rule retrieval, and exact
//! arithmetic with recorded steps.

mod text;
pub mod value_core;
pub mod rule_library;
pub mod pattern_engine;
pub mod retrieval;
pub mod execution;
pub mod integration;
pub mod library_facts;
