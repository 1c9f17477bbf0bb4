//! Ethereum-style function selectors: a free-form function declaration is
//! reduced to its canonical `name(type,...)` form, hashed with Keccak-256,
//! and the first four bytes of the digest are returned as lowercase hex.

pub mod selector;
pub mod signature;
pub mod text;

pub use selector::{selector_from_digest, Selector, SelectorError};
pub use signature::parse_the_function;
