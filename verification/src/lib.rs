//! A small library of composable document-tree rewrite rules: a generic
//! order-preserving walk engine, a text-coercion fold over nodes and
//! metadata, flat table extraction from weakly-typed metadata, and four
//! filter policies built on top of them.

pub mod ast;
pub mod attrs;
pub mod coerce;
pub mod policy;
pub mod strutil;
pub mod table;
pub mod walk;
