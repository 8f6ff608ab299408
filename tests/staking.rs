use fot_staking::accrual::accrue;
use fot_staking::keys::key_less;
use fot_staking::query::estimate_apy;
use fot_staking::{
    instantiate, migrate, Config, ContractError, ExecuteMsg, InstantiateMsg, MigrateMsg, QueryMsg,
    QueryResponse, SfotRewardInfo, StakerInfo, StakerRecord, State, UnstakeEntry, CONTRACT_NAME,
};

const DAY: u64 = 86400;
const RATE: u128 = 100_000_000_000;
/// A realistic, interval-aligned start time (a non-zero epoch day).
const T0: u64 = 19_000 * DAY;

fn s(x: &str) -> String {
    x.to_string()
}

fn setup(lock_days: u64) -> State {
    instantiate(
        s("owner"),
        InstantiateMsg {
            owner: None,
            fot_token_address: s("fot"),
            bfot_token_address: s("bfot"),
            gfot_token_address: s("gfot"),
            daily_fot_amount: RATE,
            apy_prefix: 100,
            delta_time: 0,
            reward_interval: DAY,
            lock_days,
        },
    )
}

fn stake(st: &mut State, who: &str, amount: u128, now: u64) -> Result<fot_staking::Response, ContractError> {
    st.execute(&s("gfot"), now, ExecuteMsg::Receive { sender: s(who), amount })
}

fn fund(st: &mut State, amount: u128, now: u64) {
    st.execute(&s("fot"), now, ExecuteMsg::Receive { sender: s("owner"), amount }).unwrap();
}

fn staker(st: &State, who: &str) -> fot_staking::StakerResponse {
    match st.query(QueryMsg::Staker { address: s(who) }, 0).unwrap() {
        QueryResponse::Staker(r) => r,
        _ => panic!("wrong response"),
    }
}

fn list(st: &State, start_after: Option<&str>, limit: Option<u32>) -> Vec<String> {
    match st.query(QueryMsg::ListStakers { start_after: start_after.map(s), limit }, 0).unwrap() {
        QueryResponse::ListStakers(r) => r.stakers.into_iter().map(|i| i.address).collect(),
        _ => panic!("wrong response"),
    }
}

fn unstaking(st: &State, who: &str) -> Vec<UnstakeEntry> {
    match st.query(QueryMsg::Unstaking { address: s(who) }, 0).unwrap() {
        QueryResponse::Unstaking(v) => v,
        _ => panic!("wrong response"),
    }
}

fn gfot_total(st: &State) -> u128 {
    st.query_config().gfot_amount
}

fn staked_sum(st: &State) -> u128 {
    st.accounts.iter().map(|a| a.record.amount).sum()
}

fn cfg() -> Config {
    setup(7).config
}

#[test]
fn instantiate_defaults_owner_to_sender() {
    let st = setup(7);
    let c = st.query_config();
    assert_eq!(c.owner, Some(s("owner")));
    assert_eq!(c.fot_amount, 0);
    assert_eq!(c.gfot_amount, 0);
    assert!(st.config.enabled);
    assert!(st.accounts.is_empty());
}

#[test]
fn claim_after_one_interval_pays_full_daily_amount() {
    let mut st = setup(7);
    fund(&mut st, 1_000 * RATE, T0);
    stake(&mut st, "alice", 1000, T0).unwrap();
    assert_eq!(gfot_total(&st), 1000);
    let r = st.execute(&s("alice"), T0 + DAY, ExecuteMsg::ClaimReward {}).unwrap();
    assert_eq!(r.transfers.len(), 1);
    assert_eq!(r.transfers[0].token, "fot");
    assert_eq!(r.transfers[0].recipient, "alice");
    assert_eq!(r.transfers[0].amount, 100_000_000_000);
    assert_eq!(staker(&st, "alice").reward, 0);
    assert_eq!(st.query_config().fot_amount, 1_000 * RATE - 100_000_000_000);
}

#[test]
fn stake_at_time_zero_reads_as_uninitialised() {
    let mut st = setup(7);
    fund(&mut st, 1_000 * RATE, 0);
    stake(&mut st, "alice", 1000, 0).unwrap();
    assert_eq!(staker(&st, "alice").last_time, 0);
    let r = st.execute(&s("alice"), DAY, ExecuteMsg::ClaimReward {});
    assert_eq!(r, Err(ContractError::NoReward {}));
}

#[test]
fn unstake_locked_until_unlock_time() {
    let mut st = setup(7);
    stake(&mut st, "alice", 1000, 0).unwrap();
    st.execute(&s("alice"), 0, ExecuteMsg::CreateUnstake { unstake_amount: 400 }).unwrap();
    assert_eq!(staker(&st, "alice").amount, 600);
    assert_eq!(unstaking(&st, "alice"), vec![UnstakeEntry { amount: 400, unlock_time: 7 * DAY }]);
    let r = st.execute(&s("alice"), 7 * DAY - 1, ExecuteMsg::FetchUnstake { index: 0 });
    assert_eq!(r, Err(ContractError::StillLocked {}));
    let r = st.execute(&s("alice"), 7 * DAY, ExecuteMsg::FetchUnstake { index: 0 }).unwrap();
    assert_eq!(r.transfers.len(), 1);
    assert_eq!(r.transfers[0].token, "gfot");
    assert_eq!(r.transfers[0].recipient, "alice");
    assert_eq!(r.transfers[0].amount, 400);
    assert_eq!(gfot_total(&st), 600);
    let again = st.execute(&s("alice"), 7 * DAY, ExecuteMsg::FetchUnstake { index: 0 });
    assert_eq!(again, Err(ContractError::NotCreatedUnstaking {}));
}

#[test]
fn fetch_shifts_later_entries_down() {
    let mut st = setup(1);
    stake(&mut st, "alice", 1000, T0).unwrap();
    st.execute(&s("alice"), T0, ExecuteMsg::CreateUnstake { unstake_amount: 100 }).unwrap();
    st.execute(&s("alice"), T0 + 10, ExecuteMsg::CreateUnstake { unstake_amount: 200 }).unwrap();
    st.execute(&s("alice"), T0 + DAY, ExecuteMsg::FetchUnstake { index: 0 }).unwrap();
    assert_eq!(unstaking(&st, "alice"), vec![UnstakeEntry { amount: 200, unlock_time: T0 + 10 + DAY }]);
    let r = st.execute(&s("alice"), T0 + DAY, ExecuteMsg::FetchUnstake { index: 0 });
    assert_eq!(r, Err(ContractError::StillLocked {}));
    let r = st.execute(&s("alice"), T0 + DAY + 10, ExecuteMsg::FetchUnstake { index: 0 }).unwrap();
    assert_eq!(r.transfers[0].amount, 200);
}

#[test]
fn disabled_blocks_user_operations_only() {
    let mut st = setup(7);
    fund(&mut st, 500, T0);
    stake(&mut st, "alice", 1000, T0).unwrap();
    st.execute(&s("alice"), T0, ExecuteMsg::CreateUnstake { unstake_amount: 10 }).unwrap();
    let off = ExecuteMsg::UpdateConstants {
        daily_fot_amount: RATE,
        apy_prefix: 100,
        reward_interval: DAY,
        delta_time: 0,
        lock_days: 7,
        enabled: false,
    };
    st.execute(&s("owner"), T0, off).unwrap();
    let disabled = Err(ContractError::Disabled {});
    assert_eq!(stake(&mut st, "alice", 5, T0 + 1), disabled);
    assert_eq!(st.execute(&s("fot"), T0, ExecuteMsg::Receive { sender: s("x"), amount: 5 }), disabled);
    assert_eq!(st.execute(&s("other"), T0, ExecuteMsg::Receive { sender: s("x"), amount: 5 }), disabled);
    assert_eq!(st.execute(&s("alice"), T0 + DAY, ExecuteMsg::ClaimReward {}), disabled);
    assert_eq!(st.execute(&s("alice"), T0, ExecuteMsg::CreateUnstake { unstake_amount: 1 }), disabled);
    assert_eq!(st.execute(&s("alice"), T0 + 8 * DAY, ExecuteMsg::FetchUnstake { index: 0 }), disabled);
    let again = ExecuteMsg::UpdateConstants {
        daily_fot_amount: 1,
        apy_prefix: 1,
        reward_interval: 10,
        delta_time: 3,
        lock_days: 2,
        enabled: false,
    };
    assert!(st.execute(&s("owner"), T0, again).is_ok());
    assert_eq!(st.config.daily_fot_amount, 1);
    assert_eq!(st.config.reward_interval, 10);
    let r = st.execute(&s("owner"), T0, ExecuteMsg::WithdrawFot {}).unwrap();
    assert_eq!(r.transfers[0].token, "fot");
    assert_eq!(r.transfers[0].recipient, "owner");
    assert_eq!(r.transfers[0].amount, 500);
    assert_eq!(st.config.fot_amount, 0);
}

#[test]
fn deposits_keep_total_equal_to_sum_of_stakes() {
    let mut st = setup(7);
    let deposits = [("carol", 5u128, T0), ("alice", 7, T0 + 3), ("bob", 11, T0 + DAY), ("alice", 13, T0 + 2 * DAY)];
    for (who, amount, t) in deposits {
        stake(&mut st, who, amount, t).unwrap();
        assert_eq!(gfot_total(&st), staked_sum(&st));
    }
    assert_eq!(gfot_total(&st), 36);
    assert_eq!(staker(&st, "alice").amount, 20);
}

#[test]
fn accrue_twice_at_same_time_is_same_as_once() {
    let c = cfg();
    let r = StakerRecord { amount: 300, reward: 5, last_time: T0 + 100, sfot_reward: 0 };
    let once = accrue(r, T0 + 3 * DAY + 50, &c, 1000).unwrap();
    let twice = accrue(once, T0 + 3 * DAY + 50, &c, 1000).unwrap();
    assert_eq!(once, twice);
    assert_eq!(once.reward, 5 + RATE * 3 * 300 / 1000);
    assert_eq!(once.last_time, T0 + 3 * DAY + 50);
}

#[test]
fn accrue_without_whole_interval_keeps_last_time() {
    let c = cfg();
    let r = StakerRecord { amount: 300, reward: 5, last_time: T0 + 100, sfot_reward: 0 };
    let same = accrue(r, T0 + DAY - 1, &c, 1000).unwrap();
    assert_eq!(same, r);
    let nothing_staked = StakerRecord { amount: 0, ..r };
    assert_eq!(accrue(nothing_staked, T0 + 5 * DAY, &c, 1000).unwrap(), nothing_staked);
    let fresh = StakerRecord { amount: 0, reward: 0, last_time: 0, sfot_reward: 0 };
    assert_eq!(accrue(fresh, T0 + 7, &c, 1000).unwrap().last_time, T0 + 7);
}

#[test]
fn accrue_aligns_intervals_to_delta_time() {
    let mut c = cfg();
    c.delta_time = 100;
    let r = StakerRecord { amount: 1, reward: 0, last_time: DAY - 150, sfot_reward: 0 };
    // (DAY - 150 + 100) / DAY = 0 and (DAY - 90 + 100) / DAY = 1: one boundary crossed.
    let a = accrue(r, DAY - 90, &c, 1).unwrap();
    assert_eq!(a.reward, RATE);
}

#[test]
fn accrue_zero_interval_is_arithmetic_error() {
    let mut c = cfg();
    c.reward_interval = 0;
    let r = StakerRecord { amount: 1, reward: 0, last_time: 5, sfot_reward: 0 };
    assert_eq!(accrue(r, 10, &c, 1), Err(ContractError::Arithmetic {}));
}

#[test]
fn accrue_overflow_is_arithmetic_error() {
    let mut c = cfg();
    c.daily_fot_amount = u128::MAX;
    let r = StakerRecord { amount: 2, reward: 0, last_time: T0, sfot_reward: 0 };
    assert_eq!(accrue(r, T0 + DAY, &c, 2), Err(ContractError::Arithmetic {}));
}

#[test]
fn one_interval_payout_never_exceeds_emission() {
    let mut st = setup(7);
    fund(&mut st, u64::MAX as u128, T0);
    stake(&mut st, "a", 1, T0).unwrap();
    stake(&mut st, "b", 1, T0).unwrap();
    stake(&mut st, "c", 1, T0).unwrap();
    let mut paid = 0u128;
    for who in ["a", "b", "c"] {
        let r = st.execute(&s(who), T0 + DAY, ExecuteMsg::ClaimReward {}).unwrap();
        paid += r.transfers[0].amount;
    }
    assert_eq!(paid, 3 * (RATE / 3));
    assert!(paid <= RATE);
}

#[test]
fn pages_continue_without_overlap_or_gap() {
    let mut st = setup(7);
    for who in ["e", "b", "d", "a", "c"] {
        stake(&mut st, who, 1, T0).unwrap();
    }
    let first = list(&st, None, Some(2));
    assert_eq!(first, vec![s("a"), s("b")]);
    let second = list(&st, Some("b"), Some(2));
    assert_eq!(second, vec![s("c"), s("d")]);
    let third = list(&st, Some("d"), Some(2));
    assert_eq!(third, vec![s("e")]);
    assert!(list(&st, Some("e"), Some(2)).is_empty());
    assert_eq!(list(&st, Some("bb"), None), vec![s("c"), s("d"), s("e")]);
}

#[test]
fn list_limit_defaults_to_ten_and_caps_at_thirty() {
    let mut st = setup(7);
    for i in 0..40u32 {
        stake(&mut st, &format!("acct{:02}", i), 1, T0).unwrap();
    }
    assert_eq!(list(&st, None, None).len(), 10);
    assert_eq!(list(&st, None, Some(100)).len(), 30);
    assert_eq!(list(&st, None, Some(0)).len(), 0);
    assert_eq!(list(&st, None, Some(3)), vec![s("acct00"), s("acct01"), s("acct02")]);
}

#[test]
fn keys_order_by_characters() {
    assert!(key_less(&s("a"), &s("b")));
    assert!(key_less(&s("ab"), &s("b")));
    assert!(key_less(&s("a"), &s("ab")));
    assert!(!key_less(&s("ab"), &s("ab")));
    assert!(!key_less(&s("b"), &s("ab")));
    assert!(key_less(&s("Z"), &s("a")));
}

#[test]
fn deposit_errors() {
    let mut st = setup(7);
    assert_eq!(stake(&mut st, "alice", 0, T0), Err(ContractError::InvalidInput {}));
    let r = st.execute(&s("other"), T0, ExecuteMsg::Receive { sender: s("alice"), amount: 5 });
    assert_eq!(r, Err(ContractError::UnacceptableToken {}));
    stake(&mut st, "alice", u128::MAX, T0).unwrap();
    assert_eq!(stake(&mut st, "bob", 1, T0), Err(ContractError::Arithmetic {}));
    assert!(staker(&st, "bob").amount == 0);
}

#[test]
fn fund_pool_adds_to_reward_pool() {
    let mut st = setup(7);
    fund(&mut st, 70, T0);
    fund(&mut st, 30, T0);
    assert_eq!(st.query_config().fot_amount, 100);
    assert!(st.accounts.is_empty());
}

#[test]
fn claim_errors() {
    let mut st = setup(7);
    assert_eq!(st.execute(&s("nobody"), T0, ExecuteMsg::ClaimReward {}), Err(ContractError::NoReward {}));
    assert!(st.accounts.is_empty());
    stake(&mut st, "alice", 10, T0).unwrap();
    let r = st.execute(&s("alice"), T0 + DAY, ExecuteMsg::ClaimReward {});
    assert_eq!(r, Err(ContractError::NotEnoughFOT {}));
    assert_eq!(staker(&st, "alice").reward, 0);
    assert_eq!(staker(&st, "alice").last_time, T0);
}

#[test]
fn create_unstake_errors() {
    let mut st = setup(7);
    let r = st.execute(&s("alice"), T0, ExecuteMsg::CreateUnstake { unstake_amount: 1 });
    assert_eq!(r, Err(ContractError::NoStaked {}));
    stake(&mut st, "alice", 10, T0).unwrap();
    let r = st.execute(&s("alice"), T0, ExecuteMsg::CreateUnstake { unstake_amount: 11 });
    assert_eq!(r, Err(ContractError::NotEnoughGFOT {}));
    let mut big = setup(u64::MAX / DAY);
    stake(&mut big, "alice", 10, T0).unwrap();
    let r = big.execute(&s("alice"), T0, ExecuteMsg::CreateUnstake { unstake_amount: 1 });
    assert_eq!(r, Err(ContractError::Arithmetic {}));
}

#[test]
fn create_unstake_guards_against_total_below_stake() {
    let mut st = setup(7);
    stake(&mut st, "alice", 10, T0).unwrap();
    st.execute(&s("owner"), T0, ExecuteMsg::WithdrawGFot {}).unwrap();
    let r = st.execute(&s("alice"), T0, ExecuteMsg::CreateUnstake { unstake_amount: 1 });
    assert_eq!(r, Err(ContractError::NotEnoughGFOT {}));
}

#[test]
fn fetch_unstake_errors() {
    let mut st = setup(0);
    let r = st.execute(&s("alice"), T0, ExecuteMsg::FetchUnstake { index: 0 });
    assert_eq!(r, Err(ContractError::NotCreatedUnstaking {}));
    stake(&mut st, "alice", 10, T0).unwrap();
    st.execute(&s("alice"), T0, ExecuteMsg::CreateUnstake { unstake_amount: 4 }).unwrap();
    let r = st.execute(&s("alice"), T0, ExecuteMsg::FetchUnstake { index: 1 });
    assert_eq!(r, Err(ContractError::NotCreatedUnstaking {}));
    st.execute(&s("owner"), T0, ExecuteMsg::WithdrawGFot {}).unwrap();
    let r = st.execute(&s("alice"), T0, ExecuteMsg::FetchUnstake { index: 0 });
    assert_eq!(r, Err(ContractError::NotEnoughGFOT {}));
}

#[test]
fn admin_operations_require_owner() {
    let mut st = setup(7);
    let unauthorized = Err(ContractError::Unauthorized {});
    assert_eq!(st.execute(&s("mallory"), T0, ExecuteMsg::WithdrawFot {}), unauthorized);
    assert_eq!(st.execute(&s("mallory"), T0, ExecuteMsg::UpdateConfig { new_owner: Some(s("mallory")) }), unauthorized);
    assert_eq!(st.execute(&s("mallory"), T0, ExecuteMsg::RemoveStaker { address: s("a") }), unauthorized);
    st.execute(&s("owner"), T0, ExecuteMsg::UpdateConfig { new_owner: Some(s("next")) }).unwrap();
    assert_eq!(st.query_config().owner, Some(s("next")));
    assert_eq!(st.execute(&s("owner"), T0, ExecuteMsg::WithdrawGFot {}), unauthorized);
    st.execute(&s("next"), T0, ExecuteMsg::UpdateConfig { new_owner: None }).unwrap();
    assert_eq!(st.execute(&s("next"), T0, ExecuteMsg::WithdrawFot {}), unauthorized);
}

#[test]
fn add_stakers_overwrites_records() {
    let mut st = setup(7);
    stake(&mut st, "alice", 10, T0).unwrap();
    let stakers = vec![
        StakerInfo { address: s("bob"), amount: 5, reward: 6, last_time: 7, sfot_reward: 8 },
        StakerInfo { address: s("alice"), amount: 1, reward: 2, last_time: 3, sfot_reward: 4 },
        StakerInfo { address: s("bob"), amount: 50, reward: 60, last_time: 70, sfot_reward: 80 },
    ];
    st.execute(&s("owner"), T0, ExecuteMsg::AddStakers { stakers }).unwrap();
    let a = staker(&st, "alice");
    assert_eq!((a.amount, a.reward, a.last_time, a.sfot_reward), (1, 2, 3, 4));
    let b = staker(&st, "bob");
    assert_eq!((b.amount, b.reward, b.last_time, b.sfot_reward), (50, 60, 70, 80));
    assert_eq!(gfot_total(&st), 10);
}

#[test]
fn add_sfot_rewards_is_all_or_nothing() {
    let mut st = setup(7);
    stake(&mut st, "alice", 10, T0).unwrap();
    stake(&mut st, "bob", 10, T0).unwrap();
    let ok = vec![
        SfotRewardInfo { address: s("alice"), sfot_reward: 5 },
        SfotRewardInfo { address: s("alice"), sfot_reward: 6 },
        SfotRewardInfo { address: s("bob"), sfot_reward: 1 },
    ];
    st.execute(&s("owner"), T0, ExecuteMsg::AddSfotRewards { rewards: ok }).unwrap();
    assert_eq!(staker(&st, "alice").sfot_reward, 11);
    assert_eq!(staker(&st, "bob").sfot_reward, 1);
    let bad = vec![
        SfotRewardInfo { address: s("alice"), sfot_reward: 100 },
        SfotRewardInfo { address: s("carol"), sfot_reward: 1 },
    ];
    let r = st.execute(&s("owner"), T0, ExecuteMsg::AddSfotRewards { rewards: bad });
    assert_eq!(r, Err(ContractError::NotFound {}));
    assert_eq!(staker(&st, "alice").sfot_reward, 11);
    let overflow = vec![
        SfotRewardInfo { address: s("bob"), sfot_reward: 7 },
        SfotRewardInfo { address: s("alice"), sfot_reward: u128::MAX },
    ];
    let r = st.execute(&s("owner"), T0, ExecuteMsg::AddSfotRewards { rewards: overflow });
    assert_eq!(r, Err(ContractError::Arithmetic {}));
    assert_eq!(staker(&st, "bob").sfot_reward, 1);
}

#[test]
fn remove_staker_drops_record_and_queue() {
    let mut st = setup(7);
    stake(&mut st, "alice", 10, T0).unwrap();
    stake(&mut st, "bob", 10, T0).unwrap();
    st.execute(&s("alice"), T0, ExecuteMsg::CreateUnstake { unstake_amount: 3 }).unwrap();
    st.execute(&s("owner"), T0, ExecuteMsg::RemoveStaker { address: s("alice") }).unwrap();
    assert_eq!(staker(&st, "alice").amount, 0);
    assert!(unstaking(&st, "alice").is_empty());
    assert_eq!(list(&st, None, None), vec![s("bob")]);
    st.execute(&s("owner"), T0, ExecuteMsg::RemoveStaker { address: s("zed") }).unwrap();
    assert_eq!(list(&st, None, None), vec![s("bob")]);
}

#[test]
fn remove_all_stakers_removes_one_page() {
    let mut st = setup(7);
    for who in ["a", "b", "c", "d", "e"] {
        stake(&mut st, who, 1, T0).unwrap();
    }
    let msg = ExecuteMsg::RemoveAllStakers { start_after: Some(s("a")), limit: Some(2) };
    st.execute(&s("owner"), T0, msg).unwrap();
    assert_eq!(list(&st, None, None), vec![s("a"), s("d"), s("e")]);
    st.execute(&s("owner"), T0, ExecuteMsg::RemoveAllStakers { start_after: None, limit: None }).unwrap();
    assert!(list(&st, None, None).is_empty());
}

#[test]
fn staker_query_of_unknown_account_is_zero() {
    let st = setup(7);
    let r = staker(&st, "ghost");
    assert_eq!(r.address, "ghost");
    assert_eq!((r.amount, r.reward, r.last_time, r.sfot_reward), (0, 0, 0, 0));
    assert!(unstaking(&st, "ghost").is_empty());
}

#[test]
fn apy_estimate() {
    let mut c = cfg();
    assert_eq!(estimate_apy(&c, 5), Ok(0));
    c.gfot_amount = 1000;
    c.apy_prefix = 3;
    let rate: u128 = 50_000_000_000_000 / 10_000_000_000 + 10000;
    assert_eq!(rate, 15000);
    assert_eq!(estimate_apy(&c, 50_000_000_000_000), Ok(3 * 100_000_000_000_000_000_000 / 15000 / 1000));
    c.apy_prefix = u128::MAX / 10;
    assert_eq!(estimate_apy(&c, 0), Err(ContractError::Arithmetic {}));
    let mut st = setup(7);
    stake(&mut st, "alice", 1000, T0).unwrap();
    match st.query(QueryMsg::Apy {}, 0).unwrap() {
        QueryResponse::Apy(info) => assert_eq!(info.count, 100 * 100_000_000_000_000_000_000 / 10000 / 1000),
        _ => panic!("wrong response"),
    }
}

#[test]
fn migrate_accepts_only_same_contract() {
    assert!(migrate(&s(CONTRACT_NAME), MigrateMsg {}).is_ok());
    let r = migrate(&s("other-contract"), MigrateMsg {});
    assert_eq!(r, Err(ContractError::CannotMigrate { previous_contract: s("other-contract") }));
}

#[test]
fn staked_total_is_stakes_plus_pending_unstakes() {
    let mut st = setup(1);
    stake(&mut st, "alice", 100, T0).unwrap();
    stake(&mut st, "bob", 50, T0).unwrap();
    let pending = |st: &State| -> u128 {
        st.accounts.iter().map(|a| a.unstaking.iter().map(|e| e.amount).sum::<u128>()).sum()
    };
    st.execute(&s("alice"), T0, ExecuteMsg::CreateUnstake { unstake_amount: 30 }).unwrap();
    assert_eq!(gfot_total(&st), 150);
    assert_eq!(staked_sum(&st) + pending(&st), 150);
    st.execute(&s("bob"), T0 + 5, ExecuteMsg::CreateUnstake { unstake_amount: 50 }).unwrap();
    assert_eq!(staked_sum(&st) + pending(&st), gfot_total(&st));
    st.execute(&s("alice"), T0 + DAY, ExecuteMsg::FetchUnstake { index: 0 }).unwrap();
    assert_eq!(gfot_total(&st), 120);
    assert_eq!(staked_sum(&st) + pending(&st), 120);
}

#[test]
fn config_query_reports_every_field() {
    let mut st = setup(7);
    fund(&mut st, 9, T0);
    stake(&mut st, "alice", 4, T0).unwrap();
    let c = st.query_config();
    assert_eq!(c.owner, Some(s("owner")));
    assert_eq!((c.fot_token_address.as_str(), c.bfot_token_address.as_str(), c.gfot_token_address.as_str()), ("fot", "bfot", "gfot"));
    assert_eq!((c.fot_amount, c.gfot_amount, c.daily_fot_amount, c.apy_prefix), (9, 4, RATE, 100));
    assert_eq!((c.delta_time, c.reward_interval, c.lock_days), (0, DAY, 7));
}
