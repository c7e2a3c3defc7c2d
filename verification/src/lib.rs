//! A name registry: a unique mapping from canonical (lower-cased) usernames
//! to the owning identity's public key and an associated encryption key.
//!
//! The registry enforces three invariants: at most one live record per
//! canonical username, usernames are immutable once registered, and only the
//! current owner may transfer, re-key, or close a record.  The host ledger,
//! clock, and signature verification are external collaborators: callers hand
//! in the authenticated identity and the current time as plain values.

pub mod registry;
pub mod username;
