//! Chaum-Pedersen zero-knowledge password authentication.
//!
//! The library proves knowledge of a discrete logarithm shared between two
//! group elements without revealing it.  Group elements and exponents travel
//! as unsigned big-endian byte strings; their mathematical values are the
//! `nat`s that `bignum::nat_of_be` assigns to them.
//!
//! - `bignum` models big unsigned integers as byte strings and wraps the
//!   arbitrary-precision arithmetic of an outside crate.
//! - `group` holds the proof engine: commitment pairs, the modular response,
//!   and response verification, together with the soundness proof.
//! - `protocol` holds the server-side state machine: registration, challenge
//!   issuance and verification over two string-keyed stores.
//! - `store` holds the string-keyed store both of them use.
pub mod bignum;
pub mod group;
pub mod protocol;
pub mod store;
