//! Block-chain head selection with challenge-driven invalidation.
//!
//! The `chain` module holds the block store, the fork-choice rule, block
//! and challenge processing, and the canonical height index. The
//! `network_protocol` module holds the wire-level routing-sync types and the
//! version gate that handshake decoding applies before reading a payload.

use vstd::prelude::*;

pub mod block;
pub mod chain;
pub mod network_protocol;
pub mod text;

verus! {

} // verus!
