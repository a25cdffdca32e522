//! A typed record-identity resolution layer for a document-oriented store.
//!
//! The crate models a record's composite identifier (collection name plus a
//! per-record key), its canonical textual rendering, and the reconciliation
//! of the two retrieval paths (whole-collection fetch and query execution)
//! against caller-declared record shapes.

pub mod digits;
pub mod errors;
pub mod identifier;
pub mod projection;
pub mod reconcile;
