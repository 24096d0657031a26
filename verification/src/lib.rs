//! Semantic identities for the cases of a closed enumeration.
//!
//! Every case of an enumeration gets a human-readable name and a numeric
//! index. The [`resolver`] module computes that assignment from per-case
//! annotations and validates them; the [`interface`] module holds the query
//! contract through which a resolved enumeration exposes its mapping.

pub mod interface;
pub mod resolver;

pub use interface::HasSemantics;
pub use interface::Semantics;
