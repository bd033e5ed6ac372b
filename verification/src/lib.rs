//! Threshold-ECDSA protocol engine in the style of DKLs23.
//!
//! `n` parties holding a `t`-of-`n` Shamir sharing of a secp256k1 private key
//! run a four-phase distributed key generation and, later, a four-phase
//! signing protocol that yields a standard ECDSA signature without ever
//! reconstructing the private key.
//!
//! The orchestration logic — message routing, commit/reveal gates, share
//! algebra, signature assembly, BIP-32 style derivation — is verified.
//! Curve arithmetic, hashing and the oblivious-transfer based
//! multiplication are consumed as primitives through trusted wrappers.

pub mod bytes;
pub mod codec;
pub mod derivation;
pub mod dkg;
pub mod dlog;
pub mod hashing;
pub mod laws;
pub mod mul;
pub mod point;
pub mod proto;
pub mod scalar;
pub mod signing;
pub mod zero_shares;
