//! Verified core logic of the Tgrade contracts: membership groups, voting,
//! claims, complaints and payments.
pub mod addr_map;
pub mod common;
pub mod voting;
pub mod dso;
pub mod id_map;
pub mod group;
pub mod mixer;
pub mod claims;
pub mod stake;
pub mod complaints;
pub mod dispute;
pub mod version;
pub mod payments;
pub mod oversight;
pub mod engagement;
pub mod community_pool;
pub mod paging;
