//! The persistent state: the configuration singleton and the ledger of
//! accounts, kept in ascending key order.
use vstd::prelude::*;

use crate::error::ContractError;
use crate::msg::Response;
use crate::keys::{key_less, key_lt, lemma_key_lt_irreflexive, lemma_key_lt_total, lemma_key_lt_transitive};

verus! {

/// Global parameters and the two cached pool balances.
#[derive(Debug, Clone)]
pub struct Config {
    /// With no owner the administrative operations are frozen.
    pub owner: Option<String>,
    /// The reward token.
    pub fot_token_address: String,
    pub bfot_token_address: String,
    /// The stake token.
    pub gfot_token_address: String,
    /// Cached reward pool.
    pub fot_amount: u128,
    /// Cached total staked (including stake waiting in unstake queues).
    pub gfot_amount: u128,
    /// Reward emitted per interval, shared pro rata among stakers.
    pub daily_fot_amount: u128,
    pub apy_prefix: u128,
    /// Offset that aligns interval boundaries to a global phase.
    pub delta_time: u64,
    /// Length of a reward interval in seconds.
    pub reward_interval: u64,
    /// Lock period of an unstake, in days.
    pub lock_days: u64,
    /// Circuit breaker for the user-facing operations.
    pub enabled: bool,
}

/// What the ledger holds for one account.
#[derive(Debug, Clone, Copy, PartialEq, Eq, Structural)]
pub struct StakerRecord {
    pub amount: u128,
    pub reward: u128,
    /// Epoch seconds of the last accrual; zero means never initialised.
    pub last_time: u64,
    pub sfot_reward: u128,
}

/// A pending withdrawal of stake.
#[derive(Debug, Clone, Copy, PartialEq, Eq, Structural)]
pub struct UnstakeEntry {
    pub amount: u128,
    pub unlock_time: u64,
}

pub open spec fn zero_record() -> StakerRecord {
    StakerRecord { amount: 0, reward: 0, last_time: 0, sfot_reward: 0 }
}

/// One ledger entry: the record and the unstake queue of an account.
pub struct Account {
    pub address: String,
    pub record: StakerRecord,
    pub unstaking: Vec<UnstakeEntry>,
}

pub struct AccountView {
    pub address: Seq<char>,
    pub record: StakerRecord,
    pub unstaking: Seq<UnstakeEntry>,
}

impl View for Account {
    type V = AccountView;

    open spec fn view(&self) -> AccountView {
        AccountView { address: self.address@, record: self.record, unstaking: self.unstaking@ }
    }
}

/// The whole persistent state.
pub struct State {
    pub config: Config,
    pub accounts: Vec<Account>,
}

pub struct StateView {
    pub config: Config,
    pub accounts: Seq<AccountView>,
}

impl View for State {
    type V = StateView;

    open spec fn view(&self) -> StateView {
        StateView { config: self.config, accounts: self.accounts@.map_values(|a: Account| a@) }
    }
}

/// `res` and the state after an operation are what `expected` prescribes:
/// the new state on success, the same error and an untouched state on failure.
pub open spec fn outcome(
    before: StateView,
    after: StateView,
    res: Result<Response, ContractError>,
    expected: Result<StateView, ContractError>,
) -> bool {
    match expected {
        Ok(v) => res is Ok && after == v,
        Err(e) => res == Err::<Response, ContractError>(e) && after == before,
    }
}

/// Keys strictly ascending (so also unique).
pub open spec fn sorted(s: Seq<AccountView>) -> bool {
    forall|i: int, j: int| 0 <= i < j < s.len() ==> key_lt(#[trigger] s[i].address, #[trigger] s[j].address)
}

/// `k` lies before the cut at `a`: below it, or with `inclusive` also equal to it.
pub open spec fn before(k: Seq<char>, a: Seq<char>, inclusive: bool) -> bool {
    if inclusive {
        !key_lt(a, k)
    } else {
        key_lt(k, a)
    }
}

pub open spec fn is_cut(s: Seq<AccountView>, a: Seq<char>, inclusive: bool, p: int) -> bool {
    &&& 0 <= p <= s.len()
    &&& forall|j: int| 0 <= j < p ==> before(#[trigger] s[j].address, a, inclusive)
    &&& forall|j: int| p <= j < s.len() ==> !before(#[trigger] s[j].address, a, inclusive)
}

/// Number of entries before the cut at `a`.
pub open spec fn cut(s: Seq<AccountView>, a: Seq<char>, inclusive: bool) -> int {
    choose|p: int| is_cut(s, a, inclusive, p)
}

/// Index where the account `a` is, or would be inserted.
pub open spec fn position(s: Seq<AccountView>, a: Seq<char>) -> int {
    cut(s, a, false)
}

pub open spec fn has_account(s: Seq<AccountView>, a: Seq<char>) -> bool {
    let p = position(s, a);
    p < s.len() && s[p].address == a
}

/// The record of `a`, all zero where there is none.
pub open spec fn record_of(s: Seq<AccountView>, a: Seq<char>) -> StakerRecord {
    if has_account(s, a) {
        s[position(s, a)].record
    } else {
        zero_record()
    }
}

/// The unstake queue of `a`, empty where there is none.
pub open spec fn queue_of(s: Seq<AccountView>, a: Seq<char>) -> Seq<UnstakeEntry> {
    if has_account(s, a) {
        s[position(s, a)].unstaking
    } else {
        Seq::empty()
    }
}

/// Stores `r` as the record of `a`, creating the entry with an empty queue if needed.
pub open spec fn put_record(s: Seq<AccountView>, a: Seq<char>, r: StakerRecord) -> Seq<AccountView> {
    let p = position(s, a);
    if has_account(s, a) {
        s.update(p, AccountView { record: r, ..s[p] })
    } else {
        s.insert(p, AccountView { address: a, record: r, unstaking: Seq::empty() })
    }
}

/// Replaces the queue of an existing account.
pub open spec fn put_queue(s: Seq<AccountView>, a: Seq<char>, q: Seq<UnstakeEntry>) -> Seq<AccountView> {
    let p = position(s, a);
    s.update(p, AccountView { unstaking: q, ..s[p] })
}

pub proof fn lemma_before_monotone(s: Seq<AccountView>, a: Seq<char>, inclusive: bool, i: int, j: int)
    requires
        sorted(s),
        0 <= i < j < s.len(),
        before(s[j].address, a, inclusive),
    ensures
        before(s[i].address, a, inclusive),
{
    assert(key_lt(s[i].address, s[j].address));
    if inclusive {
        if key_lt(a, s[i].address) {
            lemma_key_lt_transitive(a, s[i].address, s[j].address);
        }
    } else {
        lemma_key_lt_transitive(s[i].address, s[j].address, a);
    }
}

/// A sorted sequence has exactly one cut at each key.
pub proof fn lemma_cut(s: Seq<AccountView>, a: Seq<char>, inclusive: bool)
    requires
        sorted(s),
    ensures
        is_cut(s, a, inclusive, cut(s, a, inclusive)),
        forall|p: int| is_cut(s, a, inclusive, p) ==> p == cut(s, a, inclusive),
    decreases s.len(),
{
    if s.len() == 0 {
        assert(is_cut(s, a, inclusive, 0));
    } else {
        let t = s.drop_last();
        assert(sorted(t));
        lemma_cut(t, a, inclusive);
        let q = cut(t, a, inclusive);
        let n = s.len() - 1;
        if before(s[n].address, a, inclusive) {
            assert forall|j: int| 0 <= j < s.len() implies before(#[trigger] s[j].address, a, inclusive) by {
                if j < n {
                    lemma_before_monotone(s, a, inclusive, j, n);
                }
            }
            assert(is_cut(s, a, inclusive, s.len() as int));
        } else {
            assert forall|j: int| 0 <= j < q implies before(#[trigger] s[j].address, a, inclusive) by {
                assert(s[j] == t[j]);
            }
            assert forall|j: int| q <= j < s.len() implies !before(#[trigger] s[j].address, a, inclusive) by {
                if j < n {
                    assert(s[j] == t[j]);
                }
            }
            assert(is_cut(s, a, inclusive, q));
        }
    }
    assert forall|p: int| is_cut(s, a, inclusive, p) implies p == cut(s, a, inclusive) by {
        let c = cut(s, a, inclusive);
        if p < c {
            assert(!before(s[p].address, a, inclusive));
        } else if c < p {
            assert(!before(s[c].address, a, inclusive));
        }
    }
}

/// What a position search establishes about an account.
pub proof fn lemma_position(s: Seq<AccountView>, a: Seq<char>)
    requires
        sorted(s),
    ensures
        0 <= position(s, a) <= s.len(),
        forall|j: int| 0 <= j < position(s, a) ==> key_lt(#[trigger] s[j].address, a),
        forall|j: int| position(s, a) <= j < s.len() && !(j == position(s, a) && has_account(s, a))
            ==> key_lt(a, #[trigger] s[j].address),
        forall|j: int| 0 <= j < s.len() && s[j].address == a ==> has_account(s, a) && j == position(s, a),
{
    lemma_cut(s, a, false);
    let p = position(s, a);
    assert forall|j: int| p <= j < s.len() && !(j == p && has_account(s, a))
        implies key_lt(a, #[trigger] s[j].address) by {
        lemma_key_lt_total(a, s[p].address);
        if j > p {
            assert(key_lt(s[p].address, s[j].address));
            if a != s[p].address {
                lemma_key_lt_transitive(a, s[p].address, s[j].address);
            }
        }
    }
    assert forall|j: int| 0 <= j < s.len() && s[j].address == a implies has_account(s, a) && j == p by {
        lemma_key_lt_irreflexive(a);
    }
}

impl State {
    /// Keys of the ledger strictly ascending.
    pub open spec fn wf(&self) -> bool {
        sorted(self@.accounts)
    }
}

pub open spec fn view_of(v: Seq<Account>) -> Seq<AccountView> {
    v.map_values(|a: Account| a@)
}

/// Locates `a` in the ledger: its position, and whether it is there.
pub fn find(accounts: &Vec<Account>, a: &String) -> (r: (usize, bool))
    requires
        sorted(view_of(accounts@)),
    ensures
        r.0 == position(view_of(accounts@), a@),
        r.1 == has_account(view_of(accounts@), a@),
{
    let r = find_cut(accounts, a, false);
    let found = r < accounts.len() && accounts[r].address == *a;
    proof {
        lemma_cut(view_of(accounts@), a@, false);
    }
    (r, found)
}

/// Counts the entries before the cut at `a`.
pub fn find_cut(accounts: &Vec<Account>, a: &String, inclusive: bool) -> (r: usize)
    requires
        sorted(view_of(accounts@)),
    ensures
        r == cut(view_of(accounts@), a@, inclusive),
{
    let ghost s = view_of(accounts@);
    let mut i: usize = 0;
    while i < accounts.len()
        invariant
            s == view_of(accounts@),
            sorted(s),
            i <= s.len(),
            forall|j: int| 0 <= j < i ==> before(#[trigger] s[j].address, a@, inclusive),
        decreases s.len() - i,
    {
        let k = &accounts[i].address;
        let below = if inclusive {
            !key_less(a, k)
        } else {
            key_less(k, a)
        };
        if !below {
            proof {
                assert forall|j: int| i <= j < s.len() implies !before(#[trigger] s[j].address, a@, inclusive) by {
                    if j > i && before(s[j].address, a@, inclusive) {
                        lemma_before_monotone(s, a@, inclusive, i as int, j);
                    }
                }
                assert(is_cut(s, a@, inclusive, i as int));
                lemma_cut(s, a@, inclusive);
            }
            return i;
        }
        i = i + 1;
    }
    proof {
        assert(is_cut(s, a@, inclusive, i as int));
        lemma_cut(s, a@, inclusive);
    }
    i
}

/// Decides whether a ledger's keys are strictly ascending.
pub fn is_sorted(accounts: &Vec<Account>) -> (r: bool)
    ensures
        r == sorted(view_of(accounts@)),
{
    let ghost s = view_of(accounts@);
    let mut i: usize = 1;
    if accounts.len() == 0 {
        return true;
    }
    while i < accounts.len()
        invariant
            s == view_of(accounts@),
            1 <= i <= s.len(),
            sorted(s.subrange(0, i as int)),
        decreases s.len() - i,
    {
        if !key_less(&accounts[i - 1].address, &accounts[i].address) {
            assert(!key_lt(s[i - 1].address, s[i as int].address));
            return false;
        }
        proof {
            let t = s.subrange(0, i + 1);
            assert forall|j: int, k: int| 0 <= j < k < t.len() implies key_lt(#[trigger] t[j].address, #[trigger] t[k].address) by {
                if k < i {
                    assert(s.subrange(0, i as int)[j] == t[j] && s.subrange(0, i as int)[k] == t[k]);
                } else if j < i - 1 {
                    assert(s.subrange(0, i as int)[j] == t[j] && s.subrange(0, i as int)[i - 1] == t[i - 1]);
                    lemma_key_lt_transitive(t[j].address, t[i - 1].address, t[k].address);
                }
            }
        }
        i = i + 1;
    }
    assert(s.subrange(0, i as int) =~= s);
    true
}

/// Reads the record of `a`, all zero where there is none.
pub fn lookup_record(accounts: &Vec<Account>, a: &String) -> (r: StakerRecord)
    requires
        sorted(view_of(accounts@)),
    ensures
        r == record_of(view_of(accounts@), a@),
{
    let (p, found) = find(accounts, a);
    if found {
        accounts[p].record
    } else {
        StakerRecord { amount: 0, reward: 0, last_time: 0, sfot_reward: 0 }
    }
}

/// Replacing an entry by one with the same key keeps the order and every cut.
pub proof fn lemma_update_same_key(s: Seq<AccountView>, p: int, x: AccountView)
    requires
        sorted(s),
        0 <= p < s.len(),
        x.address == s[p].address,
    ensures
        sorted(s.update(p, x)),
        forall|a: Seq<char>, inclusive: bool| #[trigger] cut(s.update(p, x), a, inclusive) == cut(s, a, inclusive),
{
    let t = s.update(p, x);
    assert forall|i: int, j: int| 0 <= i < j < t.len() implies key_lt(#[trigger] t[i].address, #[trigger] t[j].address) by {
        assert(key_lt(s[i].address, s[j].address));
    }
    assert forall|a: Seq<char>, inclusive: bool| #[trigger] cut(t, a, inclusive) == cut(s, a, inclusive) by {
        lemma_cut(s, a, inclusive);
        lemma_cut(t, a, inclusive);
        let c = cut(s, a, inclusive);
        assert forall|j: int| 0 <= j < c implies before(#[trigger] t[j].address, a, inclusive) by {
            assert(before(s[j].address, a, inclusive));
        }
        assert forall|j: int| c <= j < t.len() implies !before(#[trigger] t[j].address, a, inclusive) by {
            assert(!before(s[j].address, a, inclusive));
        }
        assert(is_cut(t, a, inclusive, c));
    }
}

/// Storing a record keeps the ledger ordered and leaves `a` present at its position.
pub proof fn lemma_put_record(s: Seq<AccountView>, a: Seq<char>, r: StakerRecord)
    requires
        sorted(s),
    ensures
        sorted(put_record(s, a, r)),
        has_account(put_record(s, a, r), a),
        position(put_record(s, a, r), a) == position(s, a),
        record_of(put_record(s, a, r), a) == r,
        queue_of(put_record(s, a, r), a) == queue_of(s, a),
{
    lemma_position(s, a);
    let p = position(s, a);
    let t = put_record(s, a, r);
    if has_account(s, a) {
        lemma_update_same_key(s, p, AccountView { record: r, ..s[p] });
    } else {
        let x = AccountView { address: a, record: r, unstaking: Seq::empty() };
        assert forall|i: int, j: int| 0 <= i < j < t.len() implies key_lt(#[trigger] t[i].address, #[trigger] t[j].address) by {
            if j < p {
                assert(key_lt(s[i].address, s[j].address));
            } else if j == p {
                assert(key_lt(s[i].address, a));
            } else if i < p {
                assert(key_lt(s[i].address, a));
                assert(key_lt(a, s[j - 1].address));
                lemma_key_lt_transitive(s[i].address, a, s[j - 1].address);
            } else if i == p {
                assert(key_lt(a, s[j - 1].address));
            } else {
                assert(key_lt(s[i - 1].address, s[j - 1].address));
            }
        }
        lemma_position(t, a);
        assert(t[p].address == a);
    }
    lemma_position(t, a);
    assert(t[p].address == a);
}

/// Stores `r` as the record of `a`, creating the entry if needed.
pub fn store_record(accounts: &mut Vec<Account>, a: &String, r: StakerRecord)
    requires
        sorted(view_of(old(accounts)@)),
    ensures
        view_of(final(accounts)@) == put_record(view_of(old(accounts)@), a@, r),
        sorted(view_of(final(accounts)@)),
{
    let ghost s = view_of(accounts@);
    proof {
        lemma_put_record(s, a@, r);
        lemma_position(s, a@);
    }
    let (p, found) = find(accounts, a);
    assert(s.len() == accounts@.len());
    if found {
        accounts[p].record = r;
        assert(view_of(accounts@) =~= put_record(s, a@, r));
    } else {
        let acct = Account { address: a.clone(), record: r, unstaking: Vec::new() };
        assert(acct@ =~= AccountView { address: a@, record: r, unstaking: Seq::empty() });
        assert(p <= accounts@.len());
        accounts.insert(p, acct);
        assert(view_of(accounts@) =~= put_record(s, a@, r));
    }
}

} // verus!
