//! Read-only views of the state, and the APY estimate.
use vstd::prelude::*;

use crate::admin::{opt_view, page, page_bounds};
use crate::error::ContractError;
use crate::msg::{ConfigResponse, CountInfo, QueryMsg, QueryResponse, StakerInfo, StakerListResponse, StakerResponse};
use crate::state::{lookup_record, queue_of, record_of, AccountView, Config, State, UnstakeEntry};

verus! {

/// Fixed-point scale of the APY estimate, applied twice.
pub const APY_SCALE: u128 = 10_000_000_000;

/// Added to the scaled-down supply to form the rate divisor.
pub const RATE_BASE: u128 = 10000;

/// The APY estimate, scaled by `APY_SCALE` squared, from the configuration and
/// the total supply of the stake token.
pub open spec fn apy_spec(cfg: Config, supply: u128) -> Result<u128, ContractError> {
    let scaled = cfg.apy_prefix * APY_SCALE * APY_SCALE;
    let rate: int = supply as int / APY_SCALE as int + RATE_BASE as int;
    if cfg.gfot_amount == 0 {
        Ok(0)
    } else if scaled > u128::MAX {
        Err(ContractError::Arithmetic {  })
    } else {
        Ok((scaled / rate / (cfg.gfot_amount as int)) as u128)
    }
}

/// Estimates the APY from `cfg` and `supply`, the stake token's total supply.
pub fn estimate_apy(cfg: &Config, supply: u128) -> (r: Result<u128, ContractError>)
    ensures
        r == apy_spec(*cfg, supply),
{
    if cfg.gfot_amount == 0 {
        return Ok(0);
    }
    let scale: u128 = APY_SCALE * APY_SCALE;
    if cfg.apy_prefix > u128::MAX / scale {
        proof {
            assert(cfg.apy_prefix * scale > u128::MAX) by (nonlinear_arith)
                requires
                    cfg.apy_prefix > u128::MAX / scale,
                    scale > 0,
            ;
        }
        return Err(ContractError::Arithmetic {  });
    }
    proof {
        assert(cfg.apy_prefix * scale <= u128::MAX) by (nonlinear_arith)
            requires
                cfg.apy_prefix <= u128::MAX / scale,
                scale > 0,
        ;
        assert(cfg.apy_prefix * APY_SCALE * APY_SCALE == cfg.apy_prefix * scale) by (nonlinear_arith)
            requires
                scale == APY_SCALE * APY_SCALE,
        ;
    }
    let rate = supply / APY_SCALE + RATE_BASE;
    Ok(cfg.apy_prefix * scale / rate / cfg.gfot_amount)
}

pub open spec fn config_response_matches(r: ConfigResponse, cfg: Config) -> bool {
    &&& r.owner == cfg.owner
    &&& r.fot_token_address == cfg.fot_token_address
    &&& r.bfot_token_address == cfg.bfot_token_address
    &&& r.gfot_token_address == cfg.gfot_token_address
    &&& r.fot_amount == cfg.fot_amount
    &&& r.gfot_amount == cfg.gfot_amount
    &&& r.daily_fot_amount == cfg.daily_fot_amount
    &&& r.apy_prefix == cfg.apy_prefix
    &&& r.delta_time == cfg.delta_time
    &&& r.reward_interval == cfg.reward_interval
    &&& r.lock_days == cfg.lock_days
}

/// `r` reports the ledger record of `a` (zero where there is none).
pub open spec fn staker_response_matches(r: StakerResponse, s: Seq<AccountView>, a: Seq<char>) -> bool {
    let rec = record_of(s, a);
    &&& r.address@ == a
    &&& r.amount == rec.amount
    &&& r.reward == rec.reward
    &&& r.last_time == rec.last_time
    &&& r.sfot_reward == rec.sfot_reward
}

pub open spec fn info_matches(i: StakerInfo, e: AccountView) -> bool {
    &&& i.address@ == e.address
    &&& i.amount == e.record.amount
    &&& i.reward == e.record.reward
    &&& i.last_time == e.record.last_time
    &&& i.sfot_reward == e.record.sfot_reward
}

/// `r` lists exactly the accounts of `p`, in order.
pub open spec fn list_matches(r: StakerListResponse, p: Seq<AccountView>) -> bool {
    r.stakers@.len() == p.len() && forall|i: int| 0 <= i < p.len() ==> info_matches(#[trigger] r.stakers@[i], p[i])
}

impl State {
    pub fn query_config(&self) -> (r: ConfigResponse)
        ensures
            config_response_matches(r, self.config),
    {
        let owner = match &self.config.owner {
            Some(o) => Some(o.clone()),
            None => None,
        };
        ConfigResponse {
            owner,
            fot_token_address: self.config.fot_token_address.clone(),
            bfot_token_address: self.config.bfot_token_address.clone(),
            gfot_token_address: self.config.gfot_token_address.clone(),
            fot_amount: self.config.fot_amount,
            gfot_amount: self.config.gfot_amount,
            daily_fot_amount: self.config.daily_fot_amount,
            apy_prefix: self.config.apy_prefix,
            delta_time: self.config.delta_time,
            reward_interval: self.config.reward_interval,
            lock_days: self.config.lock_days,
        }
    }

    /// The record of `address`; all zero where the account has none.
    pub fn query_staker(&self, address: String) -> (r: StakerResponse)
        requires
            self.wf(),
        ensures
            staker_response_matches(r, self@.accounts, address@),
    {
        let rec = lookup_record(&self.accounts, &address);
        StakerResponse {
            address,
            amount: rec.amount,
            reward: rec.reward,
            last_time: rec.last_time,
            sfot_reward: rec.sfot_reward,
        }
    }

    /// One page of the ledger: accounts in ascending key order strictly after
    /// `start_after`, at most `limit` of them (ten by default, thirty at most).
    pub fn query_list_stakers(&self, start_after: &Option<String>, limit: Option<u32>) -> (r: StakerListResponse)
        requires
            self.wf(),
        ensures
            list_matches(r, page(self@.accounts, opt_view(*start_after), limit)),
    {
        let ghost s = self@.accounts;
        let ghost pg = page(s, opt_view(*start_after), limit);
        let (start, end) = page_bounds(&self.accounts, start_after, limit);
        let mut stakers: Vec<StakerInfo> = Vec::new();
        let mut i: usize = start;
        while i < end
            invariant
                s == self@.accounts,
                start <= i <= end <= self.accounts@.len(),
                pg == s.subrange(start as int, end as int),
                stakers@.len() == i - start,
                forall|j: int| 0 <= j < i - start ==> info_matches(#[trigger] stakers@[j], pg[j]),
            decreases end - i,
        {
            let a = &self.accounts[i];
            stakers.push(
                StakerInfo {
                    address: a.address.clone(),
                    amount: a.record.amount,
                    reward: a.record.reward,
                    last_time: a.record.last_time,
                    sfot_reward: a.record.sfot_reward,
                },
            );
            i = i + 1;
        }
        StakerListResponse { stakers }
    }

    /// The pending unstakes of `address`, oldest first; empty where it has none.
    pub fn query_unstaking(&self, address: &String) -> (r: Vec<UnstakeEntry>)
        requires
            self.wf(),
        ensures
            r@ == queue_of(self@.accounts, address@),
    {
        let (p, found) = crate::state::find(&self.accounts, address);
        let mut r: Vec<UnstakeEntry> = Vec::new();
        if found {
            let q = &self.accounts[p].unstaking;
            let mut j: usize = 0;
            while j < q.len()
                invariant
                    j <= q@.len(),
                    r@ == q@.subrange(0, j as int),
                decreases q@.len() - j,
            {
                r.push(q[j]);
                assert(r@ =~= q@.subrange(0, j + 1));
                j = j + 1;
            }
            assert(q@.subrange(0, j as int) =~= q@);
        }
        r
    }

    /// The APY estimate, given the total supply of the stake token.
    pub fn query_apy(&self, supply: u128) -> (r: Result<CountInfo, ContractError>)
        ensures
            match apy_spec(self.config, supply) {
                Ok(v) => r == Ok::<CountInfo, ContractError>(CountInfo { count: v }),
                Err(e) => r == Err::<CountInfo, ContractError>(e),
            },
    {
        match estimate_apy(&self.config, supply) {
            Ok(count) => Ok(CountInfo { count }),
            Err(e) => Err(e),
        }
    }

    /// Answers a query; `supply`, the total supply of the stake token, is
    /// read only by the APY query.
    pub fn query(&self, msg: QueryMsg, supply: u128) -> (r: Result<QueryResponse, ContractError>)
        requires
            self.wf(),
        ensures
            match msg {
                QueryMsg::Config {  } => r is Ok && r->Ok_0 is Config && config_response_matches(
                    r->Ok_0->Config_0,
                    self.config,
                ),
                QueryMsg::Staker { address } => r is Ok && r->Ok_0 is Staker && staker_response_matches(
                    r->Ok_0->Staker_0,
                    self@.accounts,
                    address@,
                ),
                QueryMsg::ListStakers { start_after, limit } => r is Ok && r->Ok_0 is ListStakers
                    && list_matches(r->Ok_0->ListStakers_0, page(self@.accounts, opt_view(start_after), limit)),
                QueryMsg::Apy {  } => match apy_spec(self.config, supply) {
                    Ok(v) => r is Ok && r->Ok_0 == QueryResponse::Apy(CountInfo { count: v }),
                    Err(e) => r == Err::<QueryResponse, ContractError>(e),
                },
                QueryMsg::Unstaking { address } => r is Ok && r->Ok_0 is Unstaking && r->Ok_0->Unstaking_0@
                    == queue_of(self@.accounts, address@),
            },
    {
        match msg {
            QueryMsg::Config {  } => Ok(QueryResponse::Config(self.query_config())),
            QueryMsg::Staker { address } => Ok(QueryResponse::Staker(self.query_staker(address))),
            QueryMsg::ListStakers { start_after, limit } => Ok(
                QueryResponse::ListStakers(self.query_list_stakers(&start_after, limit)),
            ),
            QueryMsg::Apy {  } => match self.query_apy(supply) {
                Ok(c) => Ok(QueryResponse::Apy(c)),
                Err(e) => Err(e),
            },
            QueryMsg::Unstaking { address } => Ok(QueryResponse::Unstaking(self.query_unstaking(&address))),
        }
    }
}

} // verus!
