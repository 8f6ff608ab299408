//! The operations on the state: staking, claiming, the unstake queue, and the
//! owner's administrative surface. Every operation is all-or-nothing: on an
//! error the state is left exactly as it was.
use vstd::prelude::*;

use crate::accrual::{accrue, accrue_spec};
use crate::totals::{
    lemma_queue_total_push, lemma_queue_total_remove, lemma_total_held_put_queue,
    lemma_total_held_put_record, lemma_total_staked_put_record, total_held, total_staked,
};
use crate::error::ContractError;
use crate::admin::{
    add_sfot_rewards_spec, add_stakers_state_spec, opt_view, remove_all_stakers_spec,
    remove_staker_spec, update_config_spec, update_constants_spec, withdraw_fot_spec,
    withdraw_gfot_spec,
};
use crate::msg::{
    no_transfer, one_transfer, single_transfer, ExecuteMsg, InstantiateMsg, MigrateMsg, Response,
};
use crate::state::{
    cut, find, has_account, lemma_position, lemma_put_record, lemma_update_same_key, outcome,
    position, put_queue, put_record, queue_of, record_of, sorted, store_record, view_of, Account,
    AccountView, Config, StakerRecord, State, StateView, UnstakeEntry,
};
use vstd::string::StringExecFns;

verus! {

/// Seconds in a day.
pub const DAY_SECONDS: u64 = 86400;

/// The state after a stake deposit of `amount` by `a` at time `now`.
pub open spec fn deposit_spec(v: StateView, a: Seq<char>, amount: u128, now: u64) -> Result<
    StateView,
    ContractError,
> {
    if !v.config.enabled {
        Err(ContractError::Disabled {  })
    } else if amount == 0 {
        Err(ContractError::InvalidInput {  })
    } else {
        match accrue_spec(record_of(v.accounts, a), now, v.config, v.config.gfot_amount) {
            Err(e) => Err(e),
            Ok(r) => if r.amount + amount > u128::MAX || v.config.gfot_amount + amount > u128::MAX {
                Err(ContractError::Arithmetic {  })
            } else {
                Ok(
                    StateView {
                        config: Config {
                            gfot_amount: (v.config.gfot_amount + amount) as u128,
                            ..v.config
                        },
                        accounts: put_record(
                            v.accounts,
                            a,
                            StakerRecord { amount: (r.amount + amount) as u128, ..r },
                        ),
                    },
                )
            },
        }
    }
}

/// The state after the reward pool is funded with `amount`.
pub open spec fn fund_spec(v: StateView, amount: u128) -> Result<StateView, ContractError> {
    if v.config.fot_amount + amount > u128::MAX {
        Err(ContractError::Arithmetic {  })
    } else {
        Ok(
            StateView {
                config: Config { fot_amount: (v.config.fot_amount + amount) as u128, ..v.config },
                accounts: v.accounts,
            },
        )
    }
}

/// The reward that a claim by `a` at `now` pays out, when it succeeds.
pub open spec fn claimable(v: StateView, a: Seq<char>, now: u64) -> u128 {
    accrue_spec(record_of(v.accounts, a), now, v.config, v.config.gfot_amount)->Ok_0.reward
}

/// The state after `a` claims its reward at time `now`.
pub open spec fn claim_spec(v: StateView, a: Seq<char>, now: u64) -> Result<StateView, ContractError> {
    if !v.config.enabled {
        Err(ContractError::Disabled {  })
    } else {
        match accrue_spec(record_of(v.accounts, a), now, v.config, v.config.gfot_amount) {
            Err(e) => Err(e),
            Ok(r) => if r.reward == 0 {
                Err(ContractError::NoReward {  })
            } else if v.config.fot_amount < r.reward {
                Err(ContractError::NotEnoughFOT {  })
            } else {
                Ok(
                    StateView {
                        config: Config { fot_amount: (v.config.fot_amount - r.reward) as u128, ..v.config },
                        accounts: put_record(v.accounts, a, StakerRecord { reward: 0, ..r }),
                    },
                )
            },
        }
    }
}

/// When an unstake created at `now` unlocks.
pub open spec fn unlock_time(now: u64, cfg: Config) -> int {
    now + cfg.lock_days * (DAY_SECONDS as int)
}

/// The state after `a` moves `amount` of its stake into its unstake queue at `now`.
pub open spec fn create_unstake_spec(v: StateView, a: Seq<char>, amount: u128, now: u64) -> Result<
    StateView,
    ContractError,
> {
    if !v.config.enabled {
        Err(ContractError::Disabled {  })
    } else {
        match accrue_spec(record_of(v.accounts, a), now, v.config, v.config.gfot_amount) {
            Err(e) => Err(e),
            Ok(r) => if r.amount == 0 {
                Err(ContractError::NoStaked {  })
            } else if amount > r.amount || v.config.gfot_amount < r.amount {
                Err(ContractError::NotEnoughGFOT {  })
            } else if unlock_time(now, v.config) > u64::MAX {
                Err(ContractError::Arithmetic {  })
            } else {
                Ok(
                    StateView {
                        config: v.config,
                        accounts: put_queue(
                            put_record(v.accounts, a, StakerRecord { amount: (r.amount - amount) as u128, ..r }),
                            a,
                            queue_of(v.accounts, a).push(
                                UnstakeEntry { amount, unlock_time: unlock_time(now, v.config) as u64 },
                            ),
                        ),
                    },
                )
            },
        }
    }
}

/// The state after `a` releases the pending unstake at `index` at time `now`.
pub open spec fn fetch_unstake_spec(v: StateView, a: Seq<char>, index: u64, now: u64) -> Result<
    StateView,
    ContractError,
> {
    let q = queue_of(v.accounts, a);
    if !v.config.enabled {
        Err(ContractError::Disabled {  })
    } else if index >= q.len() {
        Err(ContractError::NotCreatedUnstaking {  })
    } else if v.config.gfot_amount < q[index as int].amount {
        Err(ContractError::NotEnoughGFOT {  })
    } else if q[index as int].unlock_time > now {
        Err(ContractError::StillLocked {  })
    } else {
        Ok(
            StateView {
                config: Config {
                    gfot_amount: (v.config.gfot_amount - q[index as int].amount) as u128,
                    ..v.config
                },
                accounts: put_queue(v.accounts, a, q.remove(index as int)),
            },
        )
    }
}

/// The state after a token contract `token` reports a deposit of `amount` by `from`:
/// stake for the stake token, pool funding for the reward token.
pub open spec fn receive_spec(v: StateView, token: Seq<char>, from: Seq<char>, amount: u128, now: u64) -> Result<
    StateView,
    ContractError,
> {
    if !v.config.enabled {
        Err(ContractError::Disabled {  })
    } else if token == v.config.gfot_token_address@ {
        deposit_spec(v, from, amount, now)
    } else if token == v.config.fot_token_address@ {
        fund_spec(v, amount)
    } else {
        Err(ContractError::UnacceptableToken {  })
    }
}

/// The configuration of a fresh instance created by `sender`.
pub open spec fn initial_config(sender: String, msg: InstantiateMsg) -> Config {
    Config {
        owner: match msg.owner {
            Some(o) => Some(o),
            None => Some(sender),
        },
        fot_token_address: msg.fot_token_address,
        bfot_token_address: msg.bfot_token_address,
        gfot_token_address: msg.gfot_token_address,
        fot_amount: 0,
        gfot_amount: 0,
        daily_fot_amount: msg.daily_fot_amount,
        apy_prefix: msg.apy_prefix,
        delta_time: msg.delta_time,
        reward_interval: msg.reward_interval,
        lock_days: msg.lock_days,
        enabled: true,
    }
}

/// Name under which the contract records its version.
pub const CONTRACT_NAME: &'static str = "fot-staking";

/// Creates the state of a fresh instance: empty ledger and pools, enabled.
pub fn instantiate(sender: String, msg: InstantiateMsg) -> (r: State)
    ensures
        r.wf(),
        r@.accounts.len() == 0,
        r.config == initial_config(sender, msg),
{
    let owner = match msg.owner {
        Some(o) => Some(o),
        None => Some(sender),
    };
    let config = Config {
        owner,
        fot_token_address: msg.fot_token_address,
        bfot_token_address: msg.bfot_token_address,
        gfot_token_address: msg.gfot_token_address,
        fot_amount: 0,
        gfot_amount: 0,
        daily_fot_amount: msg.daily_fot_amount,
        apy_prefix: msg.apy_prefix,
        delta_time: msg.delta_time,
        reward_interval: msg.reward_interval,
        lock_days: msg.lock_days,
        enabled: true,
    };
    State { config, accounts: Vec::new() }
}

/// Accepts a migration only from an instance of this same contract, whose
/// recorded name is `stored_contract`.
pub fn migrate(stored_contract: &String, _msg: MigrateMsg) -> (res: Result<Response, ContractError>)
    ensures
        stored_contract@ == CONTRACT_NAME@ ==> res is Ok && res->Ok_0.transfers@.len() == 0,
        stored_contract@ != CONTRACT_NAME@ ==> res == Err::<Response, ContractError>(
            ContractError::CannotMigrate { previous_contract: *stored_contract },
        ),
{
    let name = <String as StringExecFns>::from_str(CONTRACT_NAME);
    if *stored_contract == name {
        Ok(no_transfer())
    } else {
        Err(ContractError::CannotMigrate { previous_contract: stored_contract.clone() })
    }
}

/// A stake deposit keeps the cached staked total equal to the sum of all stakes.
pub proof fn lemma_deposit_keeps_total(v: StateView, a: Seq<char>, amount: u128, now: u64)
    requires
        sorted(v.accounts),
        v.config.gfot_amount == total_staked(v.accounts),
        deposit_spec(v, a, amount, now) is Ok,
    ensures
        sorted(deposit_spec(v, a, amount, now)->Ok_0.accounts),
        deposit_spec(v, a, amount, now)->Ok_0.config.gfot_amount == total_staked(
            deposit_spec(v, a, amount, now)->Ok_0.accounts,
        ),
{
    let r = accrue_spec(record_of(v.accounts, a), now, v.config, v.config.gfot_amount)->Ok_0;
    let nr = StakerRecord { amount: (r.amount + amount) as u128, ..r };
    lemma_put_record(v.accounts, a, nr);
    lemma_total_staked_put_record(v.accounts, a, nr);
}

/// The state after a run of stake deposits, each an account, an amount and a time.
pub open spec fn deposits_spec(v: StateView, ds: Seq<(Seq<char>, u128, u64)>) -> Result<StateView, ContractError>
    decreases ds.len(),
{
    if ds.len() == 0 {
        Ok(v)
    } else {
        match deposits_spec(v, ds.drop_last()) {
            Ok(w) => deposit_spec(w, ds.last().0, ds.last().1, ds.last().2),
            Err(e) => Err(e),
        }
    }
}

/// Over any run of stake deposits, the cached staked total stays equal to the
/// sum of the stakes of all accounts.
pub proof fn lemma_deposits_keep_total(v: StateView, ds: Seq<(Seq<char>, u128, u64)>)
    requires
        sorted(v.accounts),
        v.config.gfot_amount == total_staked(v.accounts),
        deposits_spec(v, ds) is Ok,
    ensures
        sorted(deposits_spec(v, ds)->Ok_0.accounts),
        deposits_spec(v, ds)->Ok_0.config.gfot_amount == total_staked(deposits_spec(v, ds)->Ok_0.accounts),
    decreases ds.len(),
{
    if ds.len() > 0 {
        lemma_deposits_keep_total(v, ds.drop_last());
        let w = deposits_spec(v, ds.drop_last())->Ok_0;
        lemma_deposit_keeps_total(w, ds.last().0, ds.last().1, ds.last().2);
    }
}

/// Replacing the queue of a present account keeps the order, and the account
/// then holds exactly that queue.
pub proof fn lemma_put_queue(s: Seq<AccountView>, a: Seq<char>, q: Seq<UnstakeEntry>)
    requires
        sorted(s),
        has_account(s, a),
    ensures
        sorted(put_queue(s, a, q)),
        has_account(put_queue(s, a, q), a),
        queue_of(put_queue(s, a, q), a) == q,
        record_of(put_queue(s, a, q), a) == record_of(s, a),
{
    lemma_position(s, a);
    let p = position(s, a);
    lemma_update_same_key(s, p, AccountView { unstaking: q, ..s[p] });
    assert(cut(put_queue(s, a, q), a, false) == cut(s, a, false));
}

/// An unstake cannot be released before its unlock time. From then on it is
/// released, and only once: afterwards its index holds the next entry, or
/// nothing if it was the last.
pub proof fn lemma_unstake_lock(v: StateView, a: Seq<char>, amount: u128, created: u64, now: u64, later: u64)
    requires
        sorted(v.accounts),
        queue_of(v.accounts, a).len() < u64::MAX,
        create_unstake_spec(v, a, amount, created) is Ok,
    ensures
        ({
            let v1 = create_unstake_spec(v, a, amount, created)->Ok_0;
            let index = queue_of(v.accounts, a).len() as u64;
            &&& queue_of(v1.accounts, a)[index as int].amount == amount
            &&& now < unlock_time(created, v.config) ==> fetch_unstake_spec(v1, a, index, now) == Err::<
                StateView,
                ContractError,
            >(ContractError::StillLocked {  })
            &&& now >= unlock_time(created, v.config) ==> fetch_unstake_spec(v1, a, index, now) is Ok
                && fetch_unstake_spec(fetch_unstake_spec(v1, a, index, now)->Ok_0, a, index, later) == Err::<
                StateView,
                ContractError,
            >(ContractError::NotCreatedUnstaking {  })
        }),
{
    let s = v.accounts;
    let r = accrue_spec(record_of(s, a), created, v.config, v.config.gfot_amount)->Ok_0;
    let nr = StakerRecord { amount: (r.amount - amount) as u128, ..r };
    let q = queue_of(s, a);
    let e = UnstakeEntry { amount, unlock_time: unlock_time(created, v.config) as u64 };
    lemma_put_record(s, a, nr);
    let t = put_record(s, a, nr);
    lemma_put_queue(t, a, q.push(e));
    let v1 = create_unstake_spec(v, a, amount, created)->Ok_0;
    let index = q.len() as u64;
    assert(queue_of(v1.accounts, a) == q.push(e));
    if now >= unlock_time(created, v.config) {
        let v2 = fetch_unstake_spec(v1, a, index, now)->Ok_0;
        lemma_put_queue(v1.accounts, a, q.push(e).remove(index as int));
        assert(q.push(e).remove(index as int) =~= q);
        assert(queue_of(v2.accounts, a) == q);
    }
}

/// The cached staked total equals what all accounts hold: their stakes plus
/// their pending unstakes (a pending unstake leaves the total only when released).
pub open spec fn balanced(v: StateView) -> bool {
    sorted(v.accounts) && v.config.gfot_amount == total_held(v.accounts)
}

/// A stake deposit keeps the staked total balanced.
pub proof fn lemma_deposit_keeps_balance(v: StateView, a: Seq<char>, amount: u128, now: u64)
    requires
        balanced(v),
        deposit_spec(v, a, amount, now) is Ok,
    ensures
        balanced(deposit_spec(v, a, amount, now)->Ok_0),
{
    let r = accrue_spec(record_of(v.accounts, a), now, v.config, v.config.gfot_amount)->Ok_0;
    let nr = StakerRecord { amount: (r.amount + amount) as u128, ..r };
    lemma_put_record(v.accounts, a, nr);
    lemma_total_held_put_record(v.accounts, a, nr);
}

/// A reward claim keeps the staked total balanced.
pub proof fn lemma_claim_keeps_balance(v: StateView, a: Seq<char>, now: u64)
    requires
        balanced(v),
        claim_spec(v, a, now) is Ok,
    ensures
        balanced(claim_spec(v, a, now)->Ok_0),
{
    let r = accrue_spec(record_of(v.accounts, a), now, v.config, v.config.gfot_amount)->Ok_0;
    let nr = StakerRecord { reward: 0, ..r };
    lemma_put_record(v.accounts, a, nr);
    lemma_total_held_put_record(v.accounts, a, nr);
}

/// Moving stake into the unstake queue keeps the staked total balanced.
pub proof fn lemma_create_unstake_keeps_balance(v: StateView, a: Seq<char>, amount: u128, now: u64)
    requires
        balanced(v),
        create_unstake_spec(v, a, amount, now) is Ok,
    ensures
        balanced(create_unstake_spec(v, a, amount, now)->Ok_0),
{
    let s = v.accounts;
    let r = accrue_spec(record_of(s, a), now, v.config, v.config.gfot_amount)->Ok_0;
    let nr = StakerRecord { amount: (r.amount - amount) as u128, ..r };
    let q = queue_of(s, a);
    let e = UnstakeEntry { amount, unlock_time: unlock_time(now, v.config) as u64 };
    lemma_put_record(s, a, nr);
    lemma_total_held_put_record(s, a, nr);
    let t = put_record(s, a, nr);
    lemma_put_queue(t, a, q.push(e));
    lemma_total_held_put_queue(t, a, q.push(e));
    lemma_queue_total_push(q, e);
}

/// Releasing a pending unstake keeps the staked total balanced.
pub proof fn lemma_fetch_unstake_keeps_balance(v: StateView, a: Seq<char>, index: u64, now: u64)
    requires
        balanced(v),
        fetch_unstake_spec(v, a, index, now) is Ok,
    ensures
        balanced(fetch_unstake_spec(v, a, index, now)->Ok_0),
{
    let q = queue_of(v.accounts, a);
    assert(has_account(v.accounts, a));
    lemma_put_queue(v.accounts, a, q.remove(index as int));
    lemma_total_held_put_queue(v.accounts, a, q.remove(index as int));
    lemma_queue_total_remove(q, index as int);
}

/// Releasing an unstake removes it from its place: the entries after it move
/// down one index.
pub proof fn lemma_fetch_shifts(v: StateView, a: Seq<char>, index: u64, now: u64)
    requires
        sorted(v.accounts),
        fetch_unstake_spec(v, a, index, now) is Ok,
    ensures
        sorted(fetch_unstake_spec(v, a, index, now)->Ok_0.accounts),
        queue_of(fetch_unstake_spec(v, a, index, now)->Ok_0.accounts, a) == queue_of(v.accounts, a).remove(
            index as int,
        ),
{
    lemma_put_queue(v.accounts, a, queue_of(v.accounts, a).remove(index as int));
}

/// Reads the record of `a` with its position.
fn lookup(accounts: &Vec<Account>, a: &String) -> (r: (usize, bool, StakerRecord))
    requires
        sorted(view_of(accounts@)),
    ensures
        r.0 == position(view_of(accounts@), a@),
        r.1 == has_account(view_of(accounts@), a@),
        r.2 == record_of(view_of(accounts@), a@),
        r.1 ==> r.0 < accounts@.len(),
{
    let (p, found) = find(accounts, a);
    if found {
        (p, true, accounts[p].record)
    } else {
        (p, false, StakerRecord { amount: 0, reward: 0, last_time: 0, sfot_reward: 0 })
    }
}

impl State {
    /// Stakes `amount` for `account`: accrues first, then adds to its stake
    /// and to the staked total.
    pub fn deposit_stake(&mut self, account: &String, amount: u128, now: u64) -> (res: Result<
        Response,
        ContractError,
    >)
        requires
            old(self).wf(),
        ensures
            final(self).wf(),
            outcome(old(self)@, final(self)@, res, deposit_spec(old(self)@, account@, amount, now)),
            res is Ok ==> res->Ok_0.transfers@.len() == 0,
    {
        if !self.config.enabled {
            return Err(ContractError::Disabled {  });
        }
        if amount == 0 {
            return Err(ContractError::InvalidInput {  });
        }
        let (_p, _found, rec) = lookup(&self.accounts, account);
        let r = match accrue(rec, now, &self.config, self.config.gfot_amount) {
            Ok(r) => r,
            Err(e) => return Err(e),
        };
        if r.amount > u128::MAX - amount || self.config.gfot_amount > u128::MAX - amount {
            return Err(ContractError::Arithmetic {  });
        }
        store_record(&mut self.accounts, account, StakerRecord { amount: r.amount + amount, ..r });
        self.config.gfot_amount = self.config.gfot_amount + amount;
        Ok(no_transfer())
    }

    /// Adds `amount` to the cached reward pool.
    pub fn fund_pool(&mut self, amount: u128) -> (res: Result<Response, ContractError>)
        requires
            old(self).wf(),
        ensures
            final(self).wf(),
            outcome(old(self)@, final(self)@, res, fund_spec(old(self)@, amount)),
            res is Ok ==> res->Ok_0.transfers@.len() == 0,
    {
        if self.config.fot_amount > u128::MAX - amount {
            return Err(ContractError::Arithmetic {  });
        }
        self.config.fot_amount = self.config.fot_amount + amount;
        Ok(no_transfer())
    }

    /// Pays `account` its accrued reward out of the pool.
    pub fn claim_reward(&mut self, account: &String, now: u64) -> (res: Result<
        Response,
        ContractError,
    >)
        requires
            old(self).wf(),
        ensures
            final(self).wf(),
            outcome(old(self)@, final(self)@, res, claim_spec(old(self)@, account@, now)),
            res is Ok ==> single_transfer(
                res->Ok_0,
                old(self).config.fot_token_address@,
                account@,
                claimable(old(self)@, account@, now),
            ),
    {
        if !self.config.enabled {
            return Err(ContractError::Disabled {  });
        }
        let (_p, _found, rec) = lookup(&self.accounts, account);
        let r = match accrue(rec, now, &self.config, self.config.gfot_amount) {
            Ok(r) => r,
            Err(e) => return Err(e),
        };
        if r.reward == 0 {
            return Err(ContractError::NoReward {  });
        }
        if self.config.fot_amount < r.reward {
            return Err(ContractError::NotEnoughFOT {  });
        }
        store_record(&mut self.accounts, account, StakerRecord { reward: 0, ..r });
        self.config.fot_amount = self.config.fot_amount - r.reward;
        Ok(one_transfer(self.config.fot_token_address.clone(), account.clone(), r.reward))
    }

    /// Moves `amount` of the stake of `account` into its unstake queue,
    /// locked for the configured number of days.
    pub fn create_unstake(&mut self, account: &String, amount: u128, now: u64) -> (res: Result<
        Response,
        ContractError,
    >)
        requires
            old(self).wf(),
        ensures
            final(self).wf(),
            outcome(old(self)@, final(self)@, res, create_unstake_spec(old(self)@, account@, amount, now)),
            res is Ok ==> res->Ok_0.transfers@.len() == 0,
    {
        if !self.config.enabled {
            return Err(ContractError::Disabled {  });
        }
        let (p, _found, rec) = lookup(&self.accounts, account);
        let r = match accrue(rec, now, &self.config, self.config.gfot_amount) {
            Ok(r) => r,
            Err(e) => return Err(e),
        };
        if r.amount == 0 {
            return Err(ContractError::NoStaked {  });
        }
        if amount > r.amount || self.config.gfot_amount < r.amount {
            return Err(ContractError::NotEnoughGFOT {  });
        }
        let unlock = now as u128 + self.config.lock_days as u128 * DAY_SECONDS as u128;
        if unlock > u64::MAX as u128 {
            return Err(ContractError::Arithmetic {  });
        }
        let ghost s = self@.accounts;
        let new_rec = StakerRecord { amount: r.amount - amount, ..r };
        proof {
            lemma_put_record(s, account@, new_rec);
        }
        store_record(&mut self.accounts, account, new_rec);
        let ghost t = self@.accounts;
        proof {
            lemma_update_same_key(
                t,
                p as int,
                AccountView {
                    unstaking: queue_of(s, account@).push(UnstakeEntry { amount, unlock_time: unlock as u64 }),
                    ..t[p as int]
                },
            );
        }
        self.accounts[p].unstaking.push(UnstakeEntry { amount, unlock_time: unlock as u64 });
        assert(self@.accounts =~= put_queue(
            t,
            account@,
            queue_of(s, account@).push(UnstakeEntry { amount, unlock_time: unlock as u64 }),
        ));
        Ok(no_transfer())
    }

    /// Releases the pending unstake of `account` at `index` once it has
    /// unlocked; later entries move down one place.
    pub fn fetch_unstake(&mut self, account: &String, index: u64, now: u64) -> (res: Result<
        Response,
        ContractError,
    >)
        requires
            old(self).wf(),
        ensures
            final(self).wf(),
            outcome(old(self)@, final(self)@, res, fetch_unstake_spec(old(self)@, account@, index, now)),
            res is Ok ==> single_transfer(
                res->Ok_0,
                old(self).config.gfot_token_address@,
                account@,
                queue_of(old(self)@.accounts, account@)[index as int].amount,
            ),
    {
        if !self.config.enabled {
            return Err(ContractError::Disabled {  });
        }
        let (p, found, _rec) = lookup(&self.accounts, account);
        if !found || index >= self.accounts[p].unstaking.len() as u64 {
            return Err(ContractError::NotCreatedUnstaking {  });
        }
        let i = index as usize;
        let entry = self.accounts[p].unstaking[i];
        if self.config.gfot_amount < entry.amount {
            return Err(ContractError::NotEnoughGFOT {  });
        }
        if entry.unlock_time > now {
            return Err(ContractError::StillLocked {  });
        }
        let ghost s = self@.accounts;
        proof {
            lemma_update_same_key(
                s,
                p as int,
                AccountView { unstaking: s[p as int].unstaking.remove(i as int), ..s[p as int] },
            );
        }
        self.accounts[p].unstaking.remove(i);
        assert(self@.accounts =~= put_queue(s, account@, queue_of(s, account@).remove(i as int)));
        self.config.gfot_amount = self.config.gfot_amount - entry.amount;
        Ok(one_transfer(self.config.gfot_token_address.clone(), account.clone(), entry.amount))
    }

    /// Routes a deposit reported by the token contract `token`.
    pub fn execute_receive(&mut self, token: &String, from: &String, amount: u128, now: u64) -> (res: Result<
        Response,
        ContractError,
    >)
        requires
            old(self).wf(),
        ensures
            final(self).wf(),
            outcome(old(self)@, final(self)@, res, receive_spec(old(self)@, token@, from@, amount, now)),
            res is Ok ==> res->Ok_0.transfers@.len() == 0,
    {
        if !self.config.enabled {
            return Err(ContractError::Disabled {  });
        }
        if *token == self.config.gfot_token_address {
            self.deposit_stake(from, amount, now)
        } else if *token == self.config.fot_token_address {
            self.fund_pool(amount)
        } else {
            Err(ContractError::UnacceptableToken {  })
        }
    }

    /// Carries out a command from `sender` at time `now`.
    pub fn execute(&mut self, sender: &String, now: u64, msg: ExecuteMsg) -> (res: Result<Response, ContractError>)
        requires
            old(self).wf(),
        ensures
            final(self).wf(),
            match msg {
                ExecuteMsg::UpdateConfig { new_owner } => outcome(
                    old(self)@,
                    final(self)@,
                    res,
                    update_config_spec(old(self)@, sender@, new_owner),
                ) && (res is Ok ==> res->Ok_0.transfers@.len() == 0),
                ExecuteMsg::UpdateConstants {
                    daily_fot_amount,
                    apy_prefix,
                    reward_interval,
                    delta_time,
                    lock_days,
                    enabled,
                } => outcome(
                    old(self)@,
                    final(self)@,
                    res,
                    update_constants_spec(
                        old(self)@,
                        sender@,
                        daily_fot_amount,
                        apy_prefix,
                        reward_interval,
                        delta_time,
                        lock_days,
                        enabled,
                    ),
                ) && (res is Ok ==> res->Ok_0.transfers@.len() == 0),
                ExecuteMsg::Receive { sender: from, amount } => outcome(
                    old(self)@,
                    final(self)@,
                    res,
                    receive_spec(old(self)@, sender@, from@, amount, now),
                ) && (res is Ok ==> res->Ok_0.transfers@.len() == 0),
                ExecuteMsg::WithdrawFot {  } => outcome(
                    old(self)@,
                    final(self)@,
                    res,
                    withdraw_fot_spec(old(self)@, sender@),
                ) && (res is Ok ==> single_transfer(
                    res->Ok_0,
                    old(self).config.fot_token_address@,
                    sender@,
                    old(self).config.fot_amount,
                )),
                ExecuteMsg::WithdrawGFot {  } => outcome(
                    old(self)@,
                    final(self)@,
                    res,
                    withdraw_gfot_spec(old(self)@, sender@),
                ) && (res is Ok ==> single_transfer(
                    res->Ok_0,
                    old(self).config.gfot_token_address@,
                    sender@,
                    old(self).config.gfot_amount,
                )),
                ExecuteMsg::ClaimReward {  } => outcome(
                    old(self)@,
                    final(self)@,
                    res,
                    claim_spec(old(self)@, sender@, now),
                ) && (res is Ok ==> single_transfer(
                    res->Ok_0,
                    old(self).config.fot_token_address@,
                    sender@,
                    claimable(old(self)@, sender@, now),
                )),
                ExecuteMsg::CreateUnstake { unstake_amount } => outcome(
                    old(self)@,
                    final(self)@,
                    res,
                    create_unstake_spec(old(self)@, sender@, unstake_amount, now),
                ) && (res is Ok ==> res->Ok_0.transfers@.len() == 0),
                ExecuteMsg::FetchUnstake { index } => outcome(
                    old(self)@,
                    final(self)@,
                    res,
                    fetch_unstake_spec(old(self)@, sender@, index, now),
                ) && (res is Ok ==> single_transfer(
                    res->Ok_0,
                    old(self).config.gfot_token_address@,
                    sender@,
                    queue_of(old(self)@.accounts, sender@)[index as int].amount,
                )),
                ExecuteMsg::AddStakers { stakers } => outcome(
                    old(self)@,
                    final(self)@,
                    res,
                    add_stakers_state_spec(old(self)@, sender@, stakers@),
                ) && (res is Ok ==> res->Ok_0.transfers@.len() == 0),
                ExecuteMsg::RemoveStaker { address } => outcome(
                    old(self)@,
                    final(self)@,
                    res,
                    remove_staker_spec(old(self)@, sender@, address@),
                ) && (res is Ok ==> res->Ok_0.transfers@.len() == 0),
                ExecuteMsg::RemoveAllStakers { start_after, limit } => outcome(
                    old(self)@,
                    final(self)@,
                    res,
                    remove_all_stakers_spec(old(self)@, sender@, opt_view(start_after), limit),
                ) && (res is Ok ==> res->Ok_0.transfers@.len() == 0),
                ExecuteMsg::AddSfotRewards { rewards } => outcome(
                    old(self)@,
                    final(self)@,
                    res,
                    add_sfot_rewards_spec(old(self)@, sender@, rewards@),
                ) && (res is Ok ==> res->Ok_0.transfers@.len() == 0),
            },
    {
        match msg {
            ExecuteMsg::UpdateConfig { new_owner } => self.execute_update_config(sender, new_owner),
            ExecuteMsg::UpdateConstants {
                daily_fot_amount,
                apy_prefix,
                reward_interval,
                delta_time,
                lock_days,
                enabled,
            } => self.update_constants(
                sender,
                daily_fot_amount,
                apy_prefix,
                reward_interval,
                delta_time,
                lock_days,
                enabled,
            ),
            ExecuteMsg::Receive { sender: from, amount } => self.execute_receive(sender, &from, amount, now),
            ExecuteMsg::WithdrawFot {  } => self.withdraw_fot(sender),
            ExecuteMsg::WithdrawGFot {  } => self.withdraw_gfot(sender),
            ExecuteMsg::ClaimReward {  } => self.claim_reward(sender, now),
            ExecuteMsg::CreateUnstake { unstake_amount } => self.create_unstake(sender, unstake_amount, now),
            ExecuteMsg::FetchUnstake { index } => self.fetch_unstake(sender, index, now),
            ExecuteMsg::AddStakers { stakers } => self.add_stakers(sender, &stakers),
            ExecuteMsg::RemoveStaker { address } => self.remove_staker(sender, &address),
            ExecuteMsg::RemoveAllStakers { start_after, limit } => self.remove_all_stakers(
                sender,
                &start_after,
                limit,
            ),
            ExecuteMsg::AddSfotRewards { rewards } => self.add_sfot_rewards(sender, &rewards),
        }
    }
}

} // verus!
