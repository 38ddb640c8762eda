//! A per-network ledger of smart-contract deployments: an append-only
//! history of registration events together with a derived "latest known
//! state" projection per contract name.
//!
//! The core pieces are the ABI value serializer (turning decoded
//! constructor arguments into a JSON-safe tree), the duplicate detector
//! (refusing an address already present in history), the history
//! reconciler (stable reverse-chronological sort plus the latest
//! projection), and the deployment log builder that ties one
//! registration together.

pub mod errors;
pub mod model;
pub mod hexfmt;
pub mod abi;
pub mod dup;
pub mod reconcile;
pub mod builder;
pub mod decode;
pub mod screen;
