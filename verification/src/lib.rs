//! Processor for permissioned configuration records.
//!
//! A record is a fixed-capacity byte buffer whose leading bytes hold a list
//! of authorized keys, each flagged as signer or not, followed by opaque
//! payload bytes. The processor decides whether an update may replace the
//! record's contents and, if so, writes it.

pub mod cluster;
pub mod error;
pub mod instruction;
pub mod processor;
pub mod pubkey;
pub mod short_vec;
pub mod state;
pub mod view;
