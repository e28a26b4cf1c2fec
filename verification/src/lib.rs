//! Meta Vote: locking mpDAO for voting power, voting on objects of other
//! contracts, claims, EVM delegation, improvement proposals and a key-value store.
pub mod utils;
pub mod text;
pub mod seq_sum;
pub mod str_map;
pub mod locking_position;
pub mod voter;
pub mod votes;
pub mod meta_vote;
pub mod mpip;
pub mod pipeline;
pub mod kv_store;
pub mod legacy;
