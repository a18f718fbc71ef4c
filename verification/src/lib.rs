//! A static-analysis core for inspecting the abstract syntax tree of
//! compiled source units.
//!
//! The crate is layered as follows:
//! - [`ast`]: the immutable node graph handed over by a front end;
//! - [`browser`]: deterministic pre-order extraction queries over subtrees;
//! - [`workspace`]: the indexed, read-only view over a whole parsed codebase;
//! - [`ledger`]: the deduplicating, ordered collection of one detector's
//!   findings;
//! - [`detector`]: the analysis-rule contract and the capture choke point
//!   through which every finding is recorded;
//! - [`repeated_address_this`] and [`single_use_state_variable`]: the two
//!   analysis rules built on the core;
//! - [`runner`]: the orchestration loop that runs a batch of rules and
//!   aggregates their results in a stable order.

pub mod ast;
pub mod browser;
pub mod ledger;
pub mod workspace;
pub mod detector;
pub mod repeated_address_this;
pub mod single_use_state_variable;
pub mod runner;
