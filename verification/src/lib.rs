//! Introspection over a DM type hierarchy: a read-only tree of type
//! definitions, path lookup, subtype enumeration and inheritance-aware
//! resolution of variables and procedures.

pub mod constant;
pub mod laws;
pub mod object;
pub mod tree;
pub mod variable;
