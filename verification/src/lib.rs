//! Escrow engine: holds deposited value (native coins and fungible-token
//! balances) under named escrow records, releasing funds to a recipient on
//! authorization by a designated arbiter, subject to expiry and a per-escrow
//! whitelist of token contracts allowed to contribute funds.

pub mod balance;
pub mod contract;
pub mod error;
pub mod msg;
pub mod state;
pub mod text;

use vstd::prelude::*;

verus! {

/// The views of a sequence of values, element by element.
pub open spec fn views_of<T: View>(s: Seq<T>) -> Seq<T::V> {
    s.map_values(|t: T| t@)
}

} // verus!
