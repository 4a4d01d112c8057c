//! The cryptographic boundary: identities, sealed messages and session keys.
pub mod primitives;
pub mod identity;
pub mod message;
pub mod session;
