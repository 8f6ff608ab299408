//! Commands, queries and their results, over plain values: accounts and
//! tokens are addresses in text, amounts are `u128`, times are epoch seconds.
use vstd::prelude::*;

use crate::state::UnstakeEntry;

verus! {

pub struct InstantiateMsg {
    /// Owner; if none, the instantiating sender.
    pub owner: Option<String>,
    pub fot_token_address: String,
    pub bfot_token_address: String,
    pub gfot_token_address: String,
    pub daily_fot_amount: u128,
    pub apy_prefix: u128,
    pub delta_time: u64,
    pub reward_interval: u64,
    pub lock_days: u64,
}

/// A ledger record together with its account, as listed and as bulk-loaded.
#[derive(Debug, Clone, PartialEq, Eq)]
pub struct StakerInfo {
    pub address: String,
    pub amount: u128,
    pub reward: u128,
    pub last_time: u64,
    pub sfot_reward: u128,
}

/// A bonus reward to add to an existing account.
#[derive(Debug, Clone, PartialEq, Eq)]
pub struct SfotRewardInfo {
    pub address: String,
    pub sfot_reward: u128,
}

pub enum ExecuteMsg {
    /// A new owner; none freezes the administrative operations for good.
    UpdateConfig { new_owner: Option<String> },
    UpdateConstants {
        daily_fot_amount: u128,
        apy_prefix: u128,
        reward_interval: u64,
        delta_time: u64,
        lock_days: u64,
        enabled: bool,
    },
    /// A token contract (the caller) reports that `sender` deposited `amount` of it.
    Receive { sender: String, amount: u128 },
    WithdrawFot {},
    WithdrawGFot {},
    ClaimReward {},
    CreateUnstake { unstake_amount: u128 },
    FetchUnstake { index: u64 },
    AddStakers { stakers: Vec<StakerInfo> },
    RemoveStaker { address: String },
    RemoveAllStakers { start_after: Option<String>, limit: Option<u32> },
    AddSfotRewards { rewards: Vec<SfotRewardInfo> },
}

/// The payload that accompanies a deposit; the deposit is routed by the
/// depositing token, not by this payload.
#[derive(Debug, Clone, Copy, PartialEq, Eq)]
pub enum ReceiveMsg {
    Stake {},
    InitialFund {},
}

pub enum QueryMsg {
    Config {},
    Staker { address: String },
    ListStakers { start_after: Option<String>, limit: Option<u32> },
    Apy {},
    Unstaking { address: String },
}

#[derive(Debug, Clone, PartialEq, Eq)]
pub struct ConfigResponse {
    pub owner: Option<String>,
    pub fot_token_address: String,
    pub bfot_token_address: String,
    pub gfot_token_address: String,
    pub fot_amount: u128,
    pub gfot_amount: u128,
    pub daily_fot_amount: u128,
    pub apy_prefix: u128,
    pub delta_time: u64,
    pub reward_interval: u64,
    pub lock_days: u64,
}

#[derive(Debug, Clone, Copy, PartialEq, Eq)]
pub struct MigrateMsg {}

#[derive(Debug, Clone, PartialEq, Eq)]
pub struct StakerListResponse {
    pub stakers: Vec<StakerInfo>,
}

#[derive(Debug, Clone, PartialEq, Eq)]
pub struct StakerResponse {
    pub address: String,
    pub amount: u128,
    pub reward: u128,
    pub last_time: u64,
    pub sfot_reward: u128,
}

/// The estimated APY, scaled by 10^20.
#[derive(Debug, Clone, Copy, PartialEq, Eq, Structural)]
pub struct CountInfo {
    pub count: u128,
}

pub enum QueryResponse {
    Config(ConfigResponse),
    Staker(StakerResponse),
    ListStakers(StakerListResponse),
    Apy(CountInfo),
    Unstaking(Vec<UnstakeEntry>),
}

/// A deferred instruction: move `amount` of `token` to `recipient`.
#[derive(Debug, Clone, PartialEq, Eq)]
pub struct Transfer {
    pub token: String,
    pub recipient: String,
    pub amount: u128,
}

/// What a successful command asks the host to do afterwards.
#[derive(Debug, Clone, PartialEq, Eq)]
pub struct Response {
    pub transfers: Vec<Transfer>,
}

/// `t` moves `amount` of `token` to `recipient`.
pub open spec fn transfer_is(t: Transfer, token: Seq<char>, recipient: Seq<char>, amount: u128) -> bool {
    t.token@ == token && t.recipient@ == recipient && t.amount == amount
}

/// `r` holds exactly one transfer, the one described.
pub open spec fn single_transfer(r: Response, token: Seq<char>, recipient: Seq<char>, amount: u128) -> bool {
    r.transfers@.len() == 1 && transfer_is(r.transfers@[0], token, recipient, amount)
}

pub fn no_transfer() -> (r: Response)
    ensures
        r.transfers@.len() == 0,
{
    Response { transfers: Vec::new() }
}

pub fn one_transfer(token: String, recipient: String, amount: u128) -> (r: Response)
    ensures
        single_transfer(r, token@, recipient@, amount),
{
    let mut transfers = Vec::new();
    transfers.push(Transfer { token, recipient, amount });
    Response { transfers }
}

} // verus!
