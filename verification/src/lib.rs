//! Subscription filter compiler and connection lifecycle core for a
//! line-rate traffic classification engine.
//!
//! Filter expressions (`"tls and ShortConnLen,level=L4Terminated"`) are
//! parsed into predicate trees, declared filters, datatypes and callbacks
//! are gathered in a registry, and a compiler merges every predicate wired
//! into the subscription into one shared decision structure per lifecycle
//! level.  A per-connection state machine walks each tracked connection
//! through the ordered levels, evaluates the compiled predicates with
//! memoised, short-circuit atom evaluation, and reports exactly which
//! callbacks must run.

pub mod ast;
pub mod compile;
pub mod conn;
pub mod errors;
pub mod eval;
pub mod fileset;
pub mod layout;
pub mod level;
pub mod packet;
pub mod parse;
pub mod registry;
pub mod table;
pub mod token;
