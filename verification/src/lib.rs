//! An authority-gated, address-derived key/value metadata store whose values
//! are JSON documents. A pair of linked records — a raw JSON buffer and a
//! metadata record bound to it through a deterministic derived address — is
//! created, mutated and destroyed by six instructions, each guarded by a
//! chain of ownership, derivation, signer and authorization checks. Updates
//! apply a recursive JSON merge-patch to the stored document.

pub mod accounts;
pub mod addr;
pub mod codec;
pub mod error;
pub mod instruction;
pub mod json;
pub mod laws;
pub mod pda;
pub mod processor;
pub mod state;
