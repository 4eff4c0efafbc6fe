//! Axiomatic: a first-order rewriting kernel for equational proofs.
pub mod strings;
pub mod fol;
pub mod unify;
pub mod parser;
pub mod eval;
pub mod kernel;
pub mod axioms;
pub mod lean;
pub mod lean_export;
pub mod induction;
pub mod random;
pub mod inventor;
pub mod decomposer;
pub mod prompt;
pub mod policy;
pub mod database;
pub mod vectordb;
pub mod curriculum;
pub mod graph;
pub mod universe;
pub mod model;
pub mod trainer;
pub mod reward;
pub mod supervisor;
pub mod embedding;
pub mod lean_runner;
pub mod trace;
pub mod laws;
pub mod values;
