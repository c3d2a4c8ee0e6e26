//! Accounting and pricing core of a two-asset constant-product liquidity pool.

pub mod laws;
pub mod ledger;
pub mod model;
pub mod pallet;
pub mod pricing;
pub mod registry;
pub mod table;

pub use ledger::{Ledger, LedgerError};
pub use model::{Config, Error, Event};
pub use pallet::Pallet;
pub use pricing::{
    deposit_paired_amount, deposit_share_delta, integer_sqrt, swap_output, zap_in_swap_amount,
    zap_out_swap_amount,
};
pub use registry::Pool;
