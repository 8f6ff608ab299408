//! Sums over the ledger: the stakes of all accounts, and what they hold in
//! all (stake plus pending unstakes).
use vstd::prelude::*;

use crate::state::{
    has_account, lemma_position, position, put_queue, put_record, queue_of,
    record_of, sorted, AccountView, StakerRecord, UnstakeEntry,
};

verus! {

/// Sum of `f` over the entries of a ledger.
pub open spec fn sum_by(s: Seq<AccountView>, f: spec_fn(AccountView) -> int) -> int
    decreases s.len(),
{
    if s.len() == 0 {
        0
    } else {
        sum_by(s.drop_last(), f) + f(s.last())
    }
}

/// Sum of the stakes of all accounts.
pub open spec fn total_staked(s: Seq<AccountView>) -> int {
    sum_by(s, |e: AccountView| e.record.amount as int)
}

/// Sum of the amounts waiting in an unstake queue.
pub open spec fn queue_total(q: Seq<UnstakeEntry>) -> int
    decreases q.len(),
{
    if q.len() == 0 {
        0
    } else {
        queue_total(q.drop_last()) + q.last().amount
    }
}

/// What an account holds in all: its stake and its pending unstakes.
pub open spec fn held(e: AccountView) -> int {
    e.record.amount + queue_total(e.unstaking)
}

/// What all accounts hold together.
pub open spec fn total_held(s: Seq<AccountView>) -> int {
    sum_by(s, |e: AccountView| held(e))
}

pub proof fn lemma_sum_by_concat(x: Seq<AccountView>, y: Seq<AccountView>, f: spec_fn(AccountView) -> int)
    ensures
        sum_by(x + y, f) == sum_by(x, f) + sum_by(y, f),
    decreases y.len(),
{
    if y.len() == 0 {
        assert(x + y =~= x);
    } else {
        assert((x + y).drop_last() =~= x + y.drop_last());
        lemma_sum_by_concat(x, y.drop_last(), f);
    }
}

proof fn lemma_sum_by_single(e: AccountView, f: spec_fn(AccountView) -> int)
    ensures
        sum_by(seq![e], f) == f(e),
{
    assert(seq![e].drop_last() =~= Seq::<AccountView>::empty());
    assert(sum_by(Seq::<AccountView>::empty(), f) == 0);
    assert(seq![e].last() == e);
}

pub proof fn lemma_sum_by_update(s: Seq<AccountView>, p: int, e: AccountView, f: spec_fn(AccountView) -> int)
    requires
        0 <= p < s.len(),
    ensures
        sum_by(s.update(p, e), f) == sum_by(s, f) - f(s[p]) + f(e),
{
    let lo = s.subrange(0, p);
    let hi = s.subrange(p + 1, s.len() as int);
    assert(s.update(p, e) =~= lo + seq![e] + hi);
    assert(s =~= lo + seq![s[p]] + hi);
    lemma_sum_by_concat(lo + seq![e], hi, f);
    lemma_sum_by_concat(lo, seq![e], f);
    lemma_sum_by_concat(lo + seq![s[p]], hi, f);
    lemma_sum_by_concat(lo, seq![s[p]], f);
    lemma_sum_by_single(e, f);
    lemma_sum_by_single(s[p], f);
}

pub proof fn lemma_sum_by_insert(s: Seq<AccountView>, p: int, e: AccountView, f: spec_fn(AccountView) -> int)
    requires
        0 <= p <= s.len(),
    ensures
        sum_by(s.insert(p, e), f) == sum_by(s, f) + f(e),
{
    let lo = s.subrange(0, p);
    let hi = s.subrange(p, s.len() as int);
    assert(s.insert(p, e) =~= lo + seq![e] + hi);
    assert(s =~= lo + hi);
    lemma_sum_by_concat(lo + seq![e], hi, f);
    lemma_sum_by_concat(lo, seq![e], f);
    lemma_sum_by_concat(lo, hi, f);
    lemma_sum_by_single(e, f);
}

/// Storing a record changes the sum of stakes by the change of that account's stake.
pub proof fn lemma_total_staked_put_record(s: Seq<AccountView>, a: Seq<char>, r: StakerRecord)
    requires
        sorted(s),
    ensures
        total_staked(put_record(s, a, r)) == total_staked(s) - record_of(s, a).amount + r.amount,
{
    lemma_position(s, a);
    let p = position(s, a);
    if has_account(s, a) {
        lemma_sum_by_update(s, p, AccountView { record: r, ..s[p] }, |e: AccountView| e.record.amount as int);
    } else {
        lemma_sum_by_insert(
            s,
            p,
            AccountView { address: a, record: r, unstaking: Seq::empty() },
            |e: AccountView| e.record.amount as int,
        );
    }
}

/// Storing a record changes what all accounts hold by the change of that account's stake.
pub proof fn lemma_total_held_put_record(s: Seq<AccountView>, a: Seq<char>, r: StakerRecord)
    requires
        sorted(s),
    ensures
        total_held(put_record(s, a, r)) == total_held(s) - record_of(s, a).amount + r.amount,
{
    lemma_position(s, a);
    let p = position(s, a);
    if has_account(s, a) {
        lemma_sum_by_update(s, p, AccountView { record: r, ..s[p] }, |e: AccountView| held(e));
    } else {
        let e = AccountView { address: a, record: r, unstaking: Seq::empty() };
        assert(queue_total(e.unstaking) == 0);
        lemma_sum_by_insert(s, p, e, |e: AccountView| held(e));
    }
}

/// Replacing the queue of a present account changes what all accounts hold by
/// the change of that queue's sum.
pub proof fn lemma_total_held_put_queue(s: Seq<AccountView>, a: Seq<char>, q: Seq<UnstakeEntry>)
    requires
        sorted(s),
        has_account(s, a),
    ensures
        total_held(put_queue(s, a, q)) == total_held(s) - queue_total(queue_of(s, a)) + queue_total(q),
{
    let p = position(s, a);
    lemma_position(s, a);
    lemma_sum_by_update(s, p, AccountView { unstaking: q, ..s[p] }, |e: AccountView| held(e));
}

/// Appending a pending unstake raises the queue's sum by its amount.
pub proof fn lemma_queue_total_push(q: Seq<UnstakeEntry>, e: UnstakeEntry)
    ensures
        queue_total(q.push(e)) == queue_total(q) + e.amount,
{
    assert(q.push(e).drop_last() =~= q);
}

/// Removing one pending unstake lowers the queue's sum by its amount.
pub proof fn lemma_queue_total_remove(q: Seq<UnstakeEntry>, i: int)
    requires
        0 <= i < q.len(),
    ensures
        queue_total(q.remove(i)) == queue_total(q) - q[i].amount,
    decreases q.len(),
{
    if i < q.len() - 1 {
        let t = q.drop_last();
        lemma_queue_total_remove(t, i);
        assert(q.remove(i).drop_last() =~= t.remove(i));
        assert(q.remove(i).last() == q.last());
    } else {
        assert(q.remove(i) =~= q.drop_last());
    }
}

} // verus!
