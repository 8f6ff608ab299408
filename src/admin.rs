//! The owner's operations: configuration, pool sweeps, and batch edits and
//! paginated removal over the ledger.
use vstd::prelude::*;

use crate::error::ContractError;
use crate::msg::{no_transfer, one_transfer, single_transfer, Response, SfotRewardInfo, StakerInfo};
use crate::state::{
    cut, find, find_cut, has_account, lemma_cut, lemma_position, position,
    put_record, record_of, sorted, store_record, view_of, Account, AccountView, Config,
    StakerRecord, State, StateView, UnstakeEntry, outcome,
};

verus! {

/// Page size when none is asked for.
pub const DEFAULT_LIMIT: u32 = 10;

/// Largest page size.
pub const MAX_LIMIT: u32 = 30;

/// `sender` is the configured owner.
pub open spec fn is_owner(cfg: Config, sender: Seq<char>) -> bool {
    cfg.owner is Some && cfg.owner->Some_0@ == sender
}

/// Succeeds exactly when `sender` is the configured owner.
pub fn check_owner(cfg: &Config, sender: &String) -> (res: Result<Response, ContractError>)
    ensures
        res is Ok <==> is_owner(*cfg, sender@),
        res is Ok ==> res->Ok_0.transfers@.len() == 0,
        res is Err ==> res == Err::<Response, ContractError>(ContractError::Unauthorized {  }),
{
    match &cfg.owner {
        Some(owner) => {
            if *owner == *sender {
                Ok(no_transfer())
            } else {
                Err(ContractError::Unauthorized {  })
            }
        },
        None => Err(ContractError::Unauthorized {  }),
    }
}

pub open spec fn info_record(i: StakerInfo) -> StakerRecord {
    StakerRecord { amount: i.amount, reward: i.reward, last_time: i.last_time, sfot_reward: i.sfot_reward }
}

/// The ledger after each listed record, in order, overwrites its account's record.
pub open spec fn add_stakers_spec(s: Seq<AccountView>, list: Seq<StakerInfo>) -> Seq<AccountView>
    decreases list.len(),
{
    if list.len() == 0 {
        s
    } else {
        put_record(add_stakers_spec(s, list.drop_last()), list.last().address@, info_record(list.last()))
    }
}

/// The ledger after each listed bonus, in order, is added to its account;
/// the first listed account without a record, or the first overflow, fails it all.
pub open spec fn add_sfot_spec(s: Seq<AccountView>, list: Seq<SfotRewardInfo>) -> Result<
    Seq<AccountView>,
    ContractError,
>
    decreases list.len(),
{
    if list.len() == 0 {
        Ok(s)
    } else {
        match add_sfot_spec(s, list.drop_last()) {
            Err(e) => Err(e),
            Ok(t) => {
                let a = list.last().address@;
                let r = record_of(t, a);
                if !has_account(t, a) {
                    Err(ContractError::NotFound {  })
                } else if r.sfot_reward + list.last().sfot_reward > u128::MAX {
                    Err(ContractError::Arithmetic {  })
                } else {
                    Ok(put_record(t, a, StakerRecord { sfot_reward: (r.sfot_reward + list.last().sfot_reward) as u128, ..r }))
                }
            },
        }
    }
}

/// Deletes the entry of `a`, if any.
pub open spec fn drop_account(s: Seq<AccountView>, a: Seq<char>) -> Seq<AccountView> {
    if has_account(s, a) {
        s.remove(position(s, a))
    } else {
        s
    }
}

pub open spec fn opt_view(o: Option<String>) -> Option<Seq<char>> {
    match o {
        Some(k) => Some(k@),
        None => None,
    }
}

/// The size of a page: `limit`, by default ten, at most thirty.
pub open spec fn page_size(limit: Option<u32>) -> int {
    let l = match limit {
        Some(l) => l as int,
        None => DEFAULT_LIMIT as int,
    };
    if l > MAX_LIMIT {
        MAX_LIMIT as int
    } else {
        l
    }
}

/// Index of the first account strictly after the cursor.
pub open spec fn page_start(s: Seq<AccountView>, start_after: Option<Seq<char>>) -> int {
    match start_after {
        Some(k) => cut(s, k, true),
        None => 0,
    }
}

/// Index just past the page.
pub open spec fn page_end(s: Seq<AccountView>, start_after: Option<Seq<char>>, limit: Option<u32>) -> int {
    let e = page_start(s, start_after) + page_size(limit);
    if e > s.len() {
        s.len() as int
    } else {
        e
    }
}

/// The accounts of one page, in ascending key order.
pub open spec fn page(s: Seq<AccountView>, start_after: Option<Seq<char>>, limit: Option<u32>) -> Seq<
    AccountView,
> {
    s.subrange(page_start(s, start_after), page_end(s, start_after, limit))
}

/// The ledger without the accounts of one page.
pub open spec fn without_page(s: Seq<AccountView>, start_after: Option<Seq<char>>, limit: Option<u32>) -> Seq<
    AccountView,
> {
    s.subrange(0, page_start(s, start_after)) + s.subrange(page_end(s, start_after, limit), s.len() as int)
}

pub proof fn lemma_page_bounds(s: Seq<AccountView>, start_after: Option<Seq<char>>, limit: Option<u32>)
    requires
        sorted(s),
    ensures
        0 <= page_start(s, start_after) <= page_end(s, start_after, limit) <= s.len(),
{
    if let Some(k) = start_after {
        lemma_cut(s, k, true);
    }
}

/// Dropping a middle run of a sorted ledger keeps it sorted.
pub proof fn lemma_sorted_without(s: Seq<AccountView>, lo: int, hi: int)
    requires
        sorted(s),
        0 <= lo <= hi <= s.len(),
    ensures
        sorted(s.subrange(0, lo) + s.subrange(hi, s.len() as int)),
{
    let t = s.subrange(0, lo) + s.subrange(hi, s.len() as int);
    assert forall|i: int, j: int| 0 <= i < j < t.len() implies crate::keys::key_lt(#[trigger] t[i].address, #[trigger] t[j].address) by {
        let si = if i < lo { i } else { i - lo + hi };
        let sj = if j < lo { j } else { j - lo + hi };
        assert(t[i] == s[si] && t[j] == s[sj]);
        assert(key_lt_at(s, si, sj));
    }
}

spec fn key_lt_at(s: Seq<AccountView>, i: int, j: int) -> bool {
    crate::keys::key_lt(s[i].address, s[j].address)
}

/// The result of an owner-gated operation whose effect is `v`.
pub open spec fn gated(cfg: Config, sender: Seq<char>, v: StateView) -> Result<StateView, ContractError> {
    if is_owner(cfg, sender) {
        Ok(v)
    } else {
        Err(ContractError::Unauthorized {  })
    }
}

pub open spec fn update_config_spec(v: StateView, sender: Seq<char>, new_owner: Option<String>) -> Result<
    StateView,
    ContractError,
> {
    gated(v.config, sender, StateView { config: Config { owner: new_owner, ..v.config }, accounts: v.accounts })
}

pub open spec fn update_constants_spec(
    v: StateView,
    sender: Seq<char>,
    daily_fot_amount: u128,
    apy_prefix: u128,
    reward_interval: u64,
    delta_time: u64,
    lock_days: u64,
    enabled: bool,
) -> Result<StateView, ContractError> {
    gated(
        v.config,
        sender,
        StateView {
            config: Config {
                daily_fot_amount,
                apy_prefix,
                reward_interval,
                delta_time,
                lock_days,
                enabled,
                ..v.config
            },
            accounts: v.accounts,
        },
    )
}

pub open spec fn withdraw_fot_spec(v: StateView, sender: Seq<char>) -> Result<StateView, ContractError> {
    gated(v.config, sender, StateView { config: Config { fot_amount: 0, ..v.config }, accounts: v.accounts })
}

pub open spec fn withdraw_gfot_spec(v: StateView, sender: Seq<char>) -> Result<StateView, ContractError> {
    gated(v.config, sender, StateView { config: Config { gfot_amount: 0, ..v.config }, accounts: v.accounts })
}

pub open spec fn add_stakers_state_spec(v: StateView, sender: Seq<char>, list: Seq<StakerInfo>) -> Result<
    StateView,
    ContractError,
> {
    gated(v.config, sender, StateView { config: v.config, accounts: add_stakers_spec(v.accounts, list) })
}

pub open spec fn add_sfot_rewards_spec(v: StateView, sender: Seq<char>, list: Seq<SfotRewardInfo>) -> Result<
    StateView,
    ContractError,
> {
    if !is_owner(v.config, sender) {
        Err(ContractError::Unauthorized {  })
    } else {
        match add_sfot_spec(v.accounts, list) {
            Ok(t) => Ok(StateView { config: v.config, accounts: t }),
            Err(e) => Err(e),
        }
    }
}

pub open spec fn remove_staker_spec(v: StateView, sender: Seq<char>, a: Seq<char>) -> Result<
    StateView,
    ContractError,
> {
    gated(v.config, sender, StateView { config: v.config, accounts: drop_account(v.accounts, a) })
}

pub open spec fn remove_all_stakers_spec(
    v: StateView,
    sender: Seq<char>,
    start_after: Option<Seq<char>>,
    limit: Option<u32>,
) -> Result<StateView, ContractError> {
    gated(v.config, sender, StateView { config: v.config, accounts: without_page(v.accounts, start_after, limit) })
}

/// Paging forward from the last account of a page continues exactly where that
/// page ended: two consecutive pages are the next accounts in ascending key
/// order, with no overlap and no gap.
pub proof fn lemma_pages_continue(s: Seq<AccountView>, start_after: Option<Seq<char>>, limit: Option<u32>)
    requires
        sorted(s),
        page(s, start_after, limit).len() > 0,
    ensures
        ({
            let first = page(s, start_after, limit);
            let next = page(s, Some(first.last().address), limit);
            let start = page_start(s, start_after);
            let end = if start + 2 * page_size(limit) > s.len() {
                s.len() as int
            } else {
                start + 2 * page_size(limit)
            };
            first + next == s.subrange(start, end)
        }),
{
    lemma_page_bounds(s, start_after, limit);
    let first = page(s, start_after, limit);
    let start = page_start(s, start_after);
    let e = page_end(s, start_after, limit);
    let k = first.last().address;
    assert(k == s[e - 1].address);
    assert forall|j: int| 0 <= j < e implies crate::state::before(#[trigger] s[j].address, k, true) by {
        crate::keys::lemma_key_lt_irreflexive(k);
        if j < e - 1 && crate::keys::key_lt(k, s[j].address) {
            assert(key_lt_at(s, j, e - 1));
            crate::keys::lemma_key_lt_transitive(k, s[j].address, k);
        }
    }
    assert forall|j: int| e <= j < s.len() implies !crate::state::before(#[trigger] s[j].address, k, true) by {
        assert(key_lt_at(s, e - 1, j));
    }
    assert(crate::state::is_cut(s, k, true, e));
    lemma_cut(s, k, true);
    assert(page_start(s, Some(k)) == e);
    let next = page(s, Some(k), limit);
    let end = page_end(s, Some(k), limit);
    assert(first + next =~= s.subrange(start, end));
}

/// An exact copy of a ledger.
fn copy_accounts(accounts: &Vec<Account>) -> (r: Vec<Account>)
    ensures
        view_of(r@) == view_of(accounts@),
{
    let mut r: Vec<Account> = Vec::new();
    let mut i: usize = 0;
    while i < accounts.len()
        invariant
            i <= accounts@.len(),
            view_of(r@) == view_of(accounts@.subrange(0, i as int)),
        decreases accounts@.len() - i,
    {
        let a = &accounts[i];
        let mut q: Vec<UnstakeEntry> = Vec::new();
        let mut j: usize = 0;
        while j < a.unstaking.len()
            invariant
                j <= a.unstaking@.len(),
                q@ == a.unstaking@.subrange(0, j as int),
            decreases a.unstaking@.len() - j,
        {
            q.push(a.unstaking[j]);
            assert(q@ =~= a.unstaking@.subrange(0, j + 1));
            j = j + 1;
        }
        assert(q@ =~= a.unstaking@);
        let c = Account { address: a.address.clone(), record: a.record, unstaking: q };
        assert(c@ == accounts@[i as int]@);
        let ghost before = r@;
        r.push(c);
        assert(r@ == before.push(c));
        assert(view_of(r@) =~= view_of(before).push(c@));
        assert(view_of(accounts@.subrange(0, i + 1)) =~= view_of(accounts@.subrange(0, i as int)).push(
            accounts@[i as int]@,
        ));
        i = i + 1;
    }
    assert(accounts@.subrange(0, i as int) =~= accounts@);
    r
}

impl State {
    /// Replaces the owner; with none, the administrative operations are frozen.
    pub fn execute_update_config(&mut self, sender: &String, new_owner: Option<String>) -> (res: Result<
        Response,
        ContractError,
    >)
        requires
            old(self).wf(),
        ensures
            final(self).wf(),
            outcome(old(self)@, final(self)@, res, update_config_spec(old(self)@, sender@, new_owner)),
            res is Ok ==> res->Ok_0.transfers@.len() == 0,
    {
        let ok = check_owner(&self.config, sender);
        if ok.is_err() {
            return Err(ContractError::Unauthorized {  });
        }
        self.config.owner = new_owner;
        Ok(no_transfer())
    }

    /// Replaces every tunable parameter at once.
    pub fn update_constants(
        &mut self,
        sender: &String,
        daily_fot_amount: u128,
        apy_prefix: u128,
        reward_interval: u64,
        delta_time: u64,
        lock_days: u64,
        enabled: bool,
    ) -> (res: Result<Response, ContractError>)
        requires
            old(self).wf(),
        ensures
            final(self).wf(),
            outcome(old(self)@, final(self)@, res, update_constants_spec(
                old(self)@,
                sender@,
                daily_fot_amount,
                apy_prefix,
                reward_interval,
                delta_time,
                lock_days,
                enabled,
            )),
            res is Ok ==> res->Ok_0.transfers@.len() == 0,
    {
        let ok = check_owner(&self.config, sender);
        if ok.is_err() {
            return Err(ContractError::Unauthorized {  });
        }
        self.config.daily_fot_amount = daily_fot_amount;
        self.config.apy_prefix = apy_prefix;
        self.config.reward_interval = reward_interval;
        self.config.delta_time = delta_time;
        self.config.lock_days = lock_days;
        self.config.enabled = enabled;
        Ok(no_transfer())
    }

    /// Sweeps the whole cached reward pool to the owner.
    pub fn withdraw_fot(&mut self, sender: &String) -> (res: Result<Response, ContractError>)
        requires
            old(self).wf(),
        ensures
            final(self).wf(),
            outcome(old(self)@, final(self)@, res, withdraw_fot_spec(old(self)@, sender@)),
            res is Ok ==> single_transfer(
                res->Ok_0,
                old(self).config.fot_token_address@,
                sender@,
                old(self).config.fot_amount,
            ),
    {
        let ok = check_owner(&self.config, sender);
        if ok.is_err() {
            return Err(ContractError::Unauthorized {  });
        }
        let amount = self.config.fot_amount;
        self.config.fot_amount = 0;
        Ok(one_transfer(self.config.fot_token_address.clone(), sender.clone(), amount))
    }

    /// Sweeps the whole cached staked total to the owner.
    pub fn withdraw_gfot(&mut self, sender: &String) -> (res: Result<Response, ContractError>)
        requires
            old(self).wf(),
        ensures
            final(self).wf(),
            outcome(old(self)@, final(self)@, res, withdraw_gfot_spec(old(self)@, sender@)),
            res is Ok ==> single_transfer(
                res->Ok_0,
                old(self).config.gfot_token_address@,
                sender@,
                old(self).config.gfot_amount,
            ),
    {
        let ok = check_owner(&self.config, sender);
        if ok.is_err() {
            return Err(ContractError::Unauthorized {  });
        }
        let amount = self.config.gfot_amount;
        self.config.gfot_amount = 0;
        Ok(one_transfer(self.config.gfot_token_address.clone(), sender.clone(), amount))
    }

    /// Overwrites the record of each listed account, bypassing accrual.
    pub fn add_stakers(&mut self, sender: &String, stakers: &Vec<StakerInfo>) -> (res: Result<
        Response,
        ContractError,
    >)
        requires
            old(self).wf(),
        ensures
            final(self).wf(),
            outcome(old(self)@, final(self)@, res, add_stakers_state_spec(old(self)@, sender@, stakers@)),
            res is Ok ==> res->Ok_0.transfers@.len() == 0,
    {
        let ok = check_owner(&self.config, sender);
        if ok.is_err() {
            return Err(ContractError::Unauthorized {  });
        }
        let ghost s = self@.accounts;
        let mut i: usize = 0;
        while i < stakers.len()
            invariant
                i <= stakers@.len(),
                self.config == old(self).config,
                sorted(view_of(self.accounts@)),
                view_of(self.accounts@) == add_stakers_spec(s, stakers@.subrange(0, i as int)),
            decreases stakers@.len() - i,
        {
            let info = &stakers[i];
            let r = StakerRecord {
                amount: info.amount,
                reward: info.reward,
                last_time: info.last_time,
                sfot_reward: info.sfot_reward,
            };
            assert(stakers@.subrange(0, i + 1).drop_last() =~= stakers@.subrange(0, i as int));
            store_record(&mut self.accounts, &info.address, r);
            i = i + 1;
        }
        assert(stakers@.subrange(0, i as int) =~= stakers@);
        Ok(no_transfer())
    }

    /// Adds each listed bonus to its account; fails as a whole if a listed
    /// account has no record.
    pub fn add_sfot_rewards(&mut self, sender: &String, rewards: &Vec<SfotRewardInfo>) -> (res: Result<
        Response,
        ContractError,
    >)
        requires
            old(self).wf(),
        ensures
            final(self).wf(),
            outcome(old(self)@, final(self)@, res, add_sfot_rewards_spec(old(self)@, sender@, rewards@)),
            res is Ok ==> res->Ok_0.transfers@.len() == 0,
    {
        let ok = check_owner(&self.config, sender);
        if ok.is_err() {
            return Err(ContractError::Unauthorized {  });
        }
        let ghost s = self@.accounts;
        let mut work = copy_accounts(&self.accounts);
        let mut i: usize = 0;
        while i < rewards.len()
            invariant
                i <= rewards@.len(),
                self@ == old(self)@,
                s == old(self)@.accounts,
                self.wf(),
                is_owner(old(self).config, sender@),
                sorted(view_of(work@)),
                add_sfot_spec(s, rewards@.subrange(0, i as int)) == Ok::<Seq<AccountView>, ContractError>(
                    view_of(work@),
                ),
            decreases rewards@.len() - i,
        {
            let item = &rewards[i];
            assert(rewards@.subrange(0, i + 1).drop_last() =~= rewards@.subrange(0, i as int));
            let (p, found) = find(&work, &item.address);
            let ghost pre = rewards@.subrange(0, i + 1);
            assert(pre.last() == *item);
            if !found {
                proof {
                    assert(add_sfot_spec(s, pre) == Err::<Seq<AccountView>, ContractError>(ContractError::NotFound {  }));
                    lemma_prefix_fails(s, rewards@, i as int + 1);
                }
                return Err(ContractError::NotFound {  });
            }
            proof {
                lemma_position(view_of(work@), item.address@);
            }
            let r = work[p].record;
            if r.sfot_reward > u128::MAX - item.sfot_reward {
                proof {
                    assert(add_sfot_spec(s, pre) == Err::<Seq<AccountView>, ContractError>(ContractError::Arithmetic {  }));
                    lemma_prefix_fails(s, rewards@, i as int + 1);
                }
                return Err(ContractError::Arithmetic {  });
            }
            store_record(&mut work, &item.address, StakerRecord { sfot_reward: r.sfot_reward + item.sfot_reward, ..r });
            i = i + 1;
        }
        assert(rewards@.subrange(0, i as int) =~= rewards@);
        self.accounts = work;
        Ok(no_transfer())
    }

    /// Deletes the record and the unstake queue of `address`.
    pub fn remove_staker(&mut self, sender: &String, address: &String) -> (res: Result<
        Response,
        ContractError,
    >)
        requires
            old(self).wf(),
        ensures
            final(self).wf(),
            outcome(old(self)@, final(self)@, res, remove_staker_spec(old(self)@, sender@, address@)),
            res is Ok ==> res->Ok_0.transfers@.len() == 0,
    {
        let ok = check_owner(&self.config, sender);
        if ok.is_err() {
            return Err(ContractError::Unauthorized {  });
        }
        let ghost s = self@.accounts;
        let (p, found) = find(&self.accounts, address);
        if found {
            proof {
                lemma_sorted_without(s, p as int, p + 1);
                assert(s.remove(p as int) =~= s.subrange(0, p as int) + s.subrange(p + 1, s.len() as int));
            }
            self.accounts.remove(p);
            assert(view_of(self.accounts@) =~= s.remove(p as int));
        }
        Ok(no_transfer())
    }

    /// Deletes one page of accounts (records and queues), walking keys in
    /// ascending order strictly after `start_after`.
    pub fn remove_all_stakers(&mut self, sender: &String, start_after: &Option<String>, limit: Option<u32>) -> (res:
        Result<Response, ContractError>)
        requires
            old(self).wf(),
        ensures
            final(self).wf(),
            outcome(old(self)@, final(self)@, res, remove_all_stakers_spec(old(self)@, sender@, opt_view(*start_after), limit)),
            res is Ok ==> res->Ok_0.transfers@.len() == 0,
    {
        let ok = check_owner(&self.config, sender);
        if ok.is_err() {
            return Err(ContractError::Unauthorized {  });
        }
        let ghost s = self@.accounts;
        let (start, end) = page_bounds(&self.accounts, start_after, limit);
        let mut n: usize = start;
        while n < end
            invariant
                start <= n <= end <= s.len(),
                self.config == old(self).config,
                s == old(self)@.accounts,
                view_of(self.accounts@) == s.subrange(0, start as int) + s.subrange(n as int, s.len() as int),
            decreases end - n,
        {
            let ghost before = view_of(self.accounts@);
            assert(before.len() == self.accounts@.len());
            assert(start < self.accounts@.len());
            self.accounts.remove(start);
            assert(view_of(self.accounts@) =~= before.remove(start as int));
            assert(view_of(self.accounts@) =~= s.subrange(0, start as int) + s.subrange(n + 1, s.len() as int));
            n = n + 1;
        }
        proof {
            lemma_sorted_without(s, start as int, end as int);
        }
        Ok(no_transfer())
    }
}

/// The bounds of one page of the ledger.
pub fn page_bounds(accounts: &Vec<Account>, start_after: &Option<String>, limit: Option<u32>) -> (r: (
    usize,
    usize,
))
    requires
        sorted(view_of(accounts@)),
    ensures
        r.0 == page_start(view_of(accounts@), opt_view(*start_after)),
        r.1 == page_end(view_of(accounts@), opt_view(*start_after), limit),
        r.0 <= r.1 <= accounts@.len(),
{
    proof {
        lemma_page_bounds(view_of(accounts@), opt_view(*start_after), limit);
    }
    let start = match start_after {
        Some(k) => find_cut(accounts, k, true),
        None => 0,
    };
    let mut size: usize = match limit {
        Some(l) => l as usize,
        None => DEFAULT_LIMIT as usize,
    };
    if size > MAX_LIMIT as usize {
        size = MAX_LIMIT as usize;
    }
    let end = if size > accounts.len() - start {
        accounts.len()
    } else {
        start + size
    };
    (start, end)
}

/// A batch of bonuses whose prefix of length `n` fails fails as a whole.
proof fn lemma_prefix_fails(s: Seq<AccountView>, list: Seq<SfotRewardInfo>, n: int)
    requires
        0 <= n <= list.len(),
        add_sfot_spec(s, list.subrange(0, n)) is Err,
    ensures
        add_sfot_spec(s, list) == add_sfot_spec(s, list.subrange(0, n)),
    decreases list.len() - n,
{
    if n < list.len() {
        assert(list.subrange(0, n + 1).drop_last() =~= list.subrange(0, n));
        lemma_prefix_fails(s, list, n + 1);
    } else {
        assert(list.subrange(0, n) =~= list);
    }
}

} // verus!
