//! Mesh Protocol 1.0: identifiers, canonical CBOR wire formats, frames,
//! routing decisions, bundle storage rules, the session handshake and the
//! event/action core, with their cryptographic boundary.

pub mod types;
pub mod error;
pub mod cbor;
pub mod fields;
pub mod bundle;
pub mod frame;
pub mod control;
pub mod direct_message;
pub mod sealed;
pub mod routing;
pub mod crypto;
pub mod store;
pub mod assoc;
pub mod mesh_core;
pub mod session;
pub mod bindings;
