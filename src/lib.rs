//! Multi-token yield-farming ledger: farms emit reward tokens per fixed
//! session, stakers accrue a share of each emission in proportion to their
//! stake through a scaled per-share accumulator, and the lifecycle rules
//! (lockup, exhaustion, status) bound what each call may do.
//!
//! The ledger is a plain value: the host hands in the current time, the
//! caller's identity and the price of storage, and performs the transfers
//! that the calls return.
use vstd::prelude::*;

pub mod accumulator;
pub mod conservation;
pub mod contract;
pub mod farm;
pub mod laws;
pub mod ledger;
pub mod message;
pub mod registry;
pub mod stake;
pub mod view;

pub use accumulator::ACC_REWARD_MULTIPLIER;
pub use contract::{
    ChildFarmingContract, FarmError, FarmInput, StorageKey, Transfer, NANOS_PER_SEC,
};
pub use farm::{FarmParams, FarmStatus};
pub use message::TransferAction;
pub use registry::{
    ChildContractMetadata, ChildContractType, MasterContract, RegistryError,
};
pub use stake::StakeInfo;
pub use view::{FarmView, StakeInfoView};

verus! {

} // verus!
