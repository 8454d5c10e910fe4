//! Verified core of a tax-attestation service.
//!
//! The library classifies normalized blockchain transactions into tax
//! categories, computes a tax liability in integer paisa, commits to the
//! ledger with SHA-256 over a canonical byte encoding, packs the result into
//! a fixed 66-byte public-value record, and tracks asynchronous attestation
//! jobs through a pending/done/error state machine.  Each step carries a
//! contract that pins its result down, so the host service and a constrained
//! re-execution environment can rely on bit-identical output.

pub mod amounts;
pub mod artifacts;
pub mod categorize;
pub mod commit;
pub mod encode;
pub mod jobs;
pub mod normalize;
pub mod sha256;
pub mod subdomains;
pub mod tax;
pub mod text;
pub mod types;
