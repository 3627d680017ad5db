//! A YAML-like language for Anchor account contexts, verified with Verus.
//!
//! A document defines accounts (their type, seeds, constraints, dependencies, and what
//! changes when they are created) and contexts (the accounts an instruction uses, with
//! `mut` and `init`).  The library reads a document from a macro's tokens, builds each
//! context's accounts, and compiles them into the parts of Anchor account structs.

pub mod text;
pub mod token;
pub mod syntax;
pub mod propsets;
pub mod types;
pub mod indented;
pub mod grammar;
pub mod parse;
pub mod builder;
pub mod programs;
pub mod render;
pub mod order;
pub mod output;
pub mod attribute;
pub mod module;
pub mod laws;
