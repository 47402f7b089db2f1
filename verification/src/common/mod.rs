//! Definitions shared by every layer.

use vstd::prelude::*;

verus! {

/// Identifier of a transaction.
pub type TransactionId = u32;

} // verus!
