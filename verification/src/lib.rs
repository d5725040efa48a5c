//! Verified core of a commit-reveal committee election: the off-chain stage
//! machines of two pallets, their vote tally, and the decisions of the
//! producer-select network handler with its wire format.

pub mod bytes;
pub mod byte_map;
pub mod storage_map;
pub mod hashing;
pub mod tally;
pub mod origin;
pub mod commit_reveal_pallet;
pub mod signed_tx_pallet;
pub mod wire;
pub mod peer;
pub mod vote_map;
pub mod producer_select;
