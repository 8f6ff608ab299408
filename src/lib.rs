//! A staking and reward-accrual engine: accounts deposit a stake token, earn a
//! pro-rata share of a daily reward emission for every whole reward interval
//! that passes, and withdraw stake through a time-locked unstake queue.

pub mod accrual;
pub mod admin;
pub mod contract;
pub mod error;
pub mod keys;
pub mod msg;
pub mod query;
pub mod state;
pub mod totals;

pub use contract::{instantiate, migrate, CONTRACT_NAME};
pub use error::ContractError;
pub use msg::{
    ConfigResponse, CountInfo, ExecuteMsg, InstantiateMsg, MigrateMsg, QueryMsg, QueryResponse,
    ReceiveMsg, Response, SfotRewardInfo, StakerInfo, StakerListResponse, StakerResponse, Transfer,
};
pub use state::{Config, StakerRecord, State, UnstakeEntry};
