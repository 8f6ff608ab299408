//! The reward accrual engine: credits an account with its pro-rata share of
//! the emission for every whole reward interval since its last update.
use vstd::prelude::*;

use crate::error::ContractError;
use crate::state::{AccountView, Config, StakerRecord};
use crate::totals::total_staked;

verus! {

/// Index of the reward interval that holds time `t`, boundaries shifted by `delta`.
pub open spec fn interval_index(t: u64, delta: u64, interval: u64) -> int {
    (t + delta) / (interval as int)
}

/// Whole interval boundaries crossed between `last` and `now`.
pub open spec fn elapsed_intervals(last: u64, now: u64, cfg: Config) -> int {
    interval_index(now, cfg.delta_time, cfg.reward_interval) - interval_index(
        last,
        cfg.delta_time,
        cfg.reward_interval,
    )
}

/// The part of `pool` owed to `amount` out of `total`, rounded down.
pub open spec fn share(pool: int, amount: int, total: int) -> int {
    pool * amount / total
}

/// The record after accrual at time `now`, with `total` staked in all.
pub open spec fn accrue_spec(r: StakerRecord, now: u64, cfg: Config, total: u128) -> Result<
    StakerRecord,
    ContractError,
> {
    let last = if r.last_time == 0 {
        now
    } else {
        r.last_time
    };
    let e = elapsed_intervals(last, now, cfg);
    if cfg.reward_interval == 0 {
        Err(ContractError::Arithmetic {  })
    } else if total > 0 && r.amount > 0 && e > 0 {
        let pool = cfg.daily_fot_amount * e;
        let reward = r.reward + share(pool, r.amount as int, total as int);
        if pool * r.amount > u128::MAX || reward > u128::MAX {
            Err(ContractError::Arithmetic {  })
        } else {
            Ok(StakerRecord { reward: reward as u128, last_time: now, ..r })
        }
    } else {
        Ok(StakerRecord { last_time: last, ..r })
    }
}

/// Brings `r` up to date at time `now`, with `total` staked in all.
pub fn accrue(r: StakerRecord, now: u64, cfg: &Config, total: u128) -> (res: Result<
    StakerRecord,
    ContractError,
>)
    ensures
        res == accrue_spec(r, now, *cfg, total),
{
    let last = if r.last_time == 0 {
        now
    } else {
        r.last_time
    };
    if cfg.reward_interval == 0 {
        return Err(ContractError::Arithmetic {  });
    }
    let interval = cfg.reward_interval as u128;
    let now_index = (now as u128 + cfg.delta_time as u128) / interval;
    let last_index = (last as u128 + cfg.delta_time as u128) / interval;
    if total > 0 && r.amount > 0 && now_index > last_index {
        let e = now_index - last_index;
        let daily = cfg.daily_fot_amount;
        if daily != 0 && e > u128::MAX / daily {
            proof {
                lemma_product_exceeds(daily as int, e as int, u128::MAX as int);
                lemma_mul_monotone(daily * e, r.amount as int);
            }
            return Err(ContractError::Arithmetic {  });
        }
        proof {
            lemma_product_fits(daily as int, e as int, u128::MAX as int);
        }
        let pool = daily * e;
        if pool != 0 && r.amount > u128::MAX / pool {
            proof {
                lemma_product_exceeds(pool as int, r.amount as int, u128::MAX as int);
            }
            return Err(ContractError::Arithmetic {  });
        }
        proof {
            lemma_product_fits(pool as int, r.amount as int, u128::MAX as int);
        }
        let delta = pool * r.amount / total;
        if delta > u128::MAX - r.reward {
            return Err(ContractError::Arithmetic {  });
        }
        Ok(StakerRecord { reward: r.reward + delta, last_time: now, ..r })
    } else {
        Ok(StakerRecord { last_time: last, ..r })
    }
}

proof fn lemma_product_exceeds(x: int, y: int, m: int)
    requires
        x > 0,
        m >= 0,
        y > m / x,
    ensures
        x * y > m,
{
    assert(x * y > m) by (nonlinear_arith)
        requires
            x > 0,
            m >= 0,
            y > m / x,
    ;
}

proof fn lemma_product_fits(x: int, y: int, m: int)
    requires
        x >= 0,
        y >= 0,
        m >= 0,
        x == 0 || y <= m / x,
    ensures
        x * y <= m,
{
    if x > 0 {
        assert(x * y <= x * (m / x)) by (nonlinear_arith)
            requires
                x > 0,
                y <= m / x,
        ;
        assert(x * (m / x) <= m) by (nonlinear_arith)
            requires
                x > 0,
                m >= 0,
        ;
    }
}

proof fn lemma_mul_monotone(x: int, y: int)
    requires
        x >= 0,
        y >= 1,
    ensures
        x * y >= x,
{
    assert(x * y >= x) by (nonlinear_arith)
        requires
            x >= 0,
            y >= 1,
    ;
}

/// Accrual is idempotent: a second accrual at the same time changes nothing.
pub proof fn lemma_accrue_idempotent(r: StakerRecord, now: u64, cfg: Config, total: u128)
    requires
        accrue_spec(r, now, cfg, total) is Ok,
    ensures
        accrue_spec(accrue_spec(r, now, cfg, total)->Ok_0, now, cfg, total) == accrue_spec(
            r,
            now,
            cfg,
            total,
        ),
{
    let r1 = accrue_spec(r, now, cfg, total)->Ok_0;
    if r1.last_time != now {
        assert(r1 == r);
    }
}

/// Accrual only adds reward: stake and bonus stay as they were, the reward
/// never decreases, and the update time never moves backwards.
pub proof fn lemma_accrue_monotone(r: StakerRecord, now: u64, cfg: Config, total: u128)
    requires
        accrue_spec(r, now, cfg, total) is Ok,
        r.last_time <= now,
    ensures
        accrue_spec(r, now, cfg, total)->Ok_0.amount == r.amount,
        accrue_spec(r, now, cfg, total)->Ok_0.sfot_reward == r.sfot_reward,
        accrue_spec(r, now, cfg, total)->Ok_0.reward >= r.reward,
        accrue_spec(r, now, cfg, total)->Ok_0.last_time >= r.last_time,
{
    let e = elapsed_intervals(if r.last_time == 0 { now } else { r.last_time }, now, cfg);
    if total > 0 && r.amount > 0 && e > 0 {
        let pool = cfg.daily_fot_amount * e;
        assert(pool >= 0) by (nonlinear_arith)
            requires
                pool == cfg.daily_fot_amount * e,
                cfg.daily_fot_amount >= 0,
                e > 0,
        ;
        let d = share(pool, r.amount as int, total as int);
        assert(d >= 0) by (nonlinear_arith)
            requires
                d == pool * (r.amount as int) / (total as int),
                pool >= 0,
                r.amount >= 0,
                total > 0,
        ;
    }
}

/// Sum of the shares of `pool` that accrual credits to all accounts out of `total`.
pub open spec fn payout(s: Seq<AccountView>, pool: int, total: int) -> int
    decreases s.len(),
{
    if s.len() == 0 {
        0
    } else {
        payout(s.drop_last(), pool, total) + share(pool, s.last().record.amount as int, total)
    }
}

/// Over all accounts, the reward credited for one run of elapsed intervals never
/// exceeds the emission for those intervals, when the total covers every stake.
pub proof fn lemma_interval_payout_bounded(s: Seq<AccountView>, cfg: Config, elapsed: int, total: int)
    requires
        total > 0,
        elapsed >= 0,
        total_staked(s) <= total,
    ensures
        payout(s, cfg.daily_fot_amount * elapsed, total) <= cfg.daily_fot_amount * elapsed,
{
    let pool = cfg.daily_fot_amount * elapsed;
    assert(pool >= 0) by (nonlinear_arith)
        requires
            pool == cfg.daily_fot_amount * elapsed,
            cfg.daily_fot_amount >= 0,
            elapsed >= 0,
    ;
    lemma_payout_scaled(s, pool, total);
    let p = payout(s, pool, total);
    let st = total_staked(s);
    assert(pool * st <= pool * total) by (nonlinear_arith)
        requires
            pool >= 0,
            st <= total,
    ;
    assert(p <= pool) by (nonlinear_arith)
        requires
            p * total <= pool * total,
            total > 0,
    ;
}

proof fn lemma_payout_scaled(s: Seq<AccountView>, pool: int, total: int)
    requires
        total > 0,
        pool >= 0,
    ensures
        payout(s, pool, total) * total <= pool * total_staked(s),
        total_staked(s) >= 0,
    decreases s.len(),
{
    if s.len() > 0 {
        let t = s.drop_last();
        lemma_payout_scaled(t, pool, total);
        let a = s.last().record.amount as int;
        let d = share(pool, a, total);
        assert(d * total <= pool * a) by (nonlinear_arith)
            requires
                d == pool * a / total,
                total > 0,
                pool >= 0,
                a >= 0,
        ;
        let pt = payout(t, pool, total);
        let st = total_staked(t);
        assert((pt + d) * total <= pool * (st + a)) by (nonlinear_arith)
            requires
                pt * total <= pool * st,
                d * total <= pool * a,
        ;
    }
}

} // verus!
