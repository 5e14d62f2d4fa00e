//! A minimal fungible-token ledger for the Internet Computer, with its
//! bookkeeping rules stated as contracts and proved.
//!
//! The ledger tracks one balance per account, the total supply and the
//! token's descriptive fields. It never reads its caller from its host:
//! every call that acts for somebody takes that caller's identity as an
//! argument.
//!
//! - [`account`]: account identifiers.
//! - [`balances`]: the map from account to balance.
//! - [`sums`]: the sum of a map's amounts.
//! - [`state`]: the ledger as a state machine over mathematical values,
//!   and what holds of every state it can reach.
//! - [`wallet`]: the ledger itself.

pub mod account;
pub mod balances;
pub mod state;
pub mod sums;
pub mod wallet;

pub use account::AccountId;
pub use balances::Balances;
pub use wallet::TokenWallet;
