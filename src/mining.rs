use std::collections::HashMap;
use vstd::arithmetic::div_mod::lemma_div_is_ordered;
use vstd::prelude::*;

use crate::arith::lemma_product_bound;
use crate::primitives::{AccountId, Balance, BlockNumber};

verus! {

/// The index of a session: a run of `blocks_per_session` blocks.
pub type SessionIndex = u32;

/// A quantity of mining power.
pub type MiningPower = u128;

/// Why a claim was refused.
#[derive(PartialEq, Eq, Structural, Clone, Copy, Debug)]
pub enum MiningError {
    /// The session has not ended yet.
    InvalidSession,
    /// The account holds no power in the session.
    NoMiningPower,
    /// The reward is too large to compute in a `Balance`.
    Overflow,
}

/// The session that contains block `now`; the last index stands for all later ones.
pub open spec fn session_of(now: BlockNumber, blocks_per_session: nat) -> SessionIndex {
    if now as nat / blocks_per_session > u32::MAX {
        u32::MAX
    } else {
        (now as nat / blocks_per_session) as SessionIndex
    }
}

/// `a + b`, held at the largest `u128`.
pub open spec fn saturating_sum(a: nat, b: nat) -> nat {
    if a + b > u128::MAX {
        u128::MAX as nat
    } else {
        a + b
    }
}

/// The share of `pool` that `power` earns out of `total`, rounded down.
pub open spec fn reward_share(power: nat, total: nat, pool: nat) -> nat {
    if total == 0 {
        0
    } else {
        power * pool / total
    }
}

/// The slot of the power of `a` in session `s`: one slot per pair.
pub open spec fn power_key(s: SessionIndex, a: AccountId) -> int {
    s as int * 0x1_0000_0000_0000_0000 + a as int
}

/// The value under `k`, zero where there is none.
pub open spec fn stored_or_zero<K>(m: Map<K, u128>, k: K) -> nat {
    if m.contains_key(k) {
        m[k] as nat
    } else {
        0
    }
}

/// The session whose reward pool is fixed at block `now`: the one that ends
/// just before it, where `now` starts a session other than the first.
pub open spec fn closing_session(now: BlockNumber, blocks_per_session: nat) -> Option<SessionIndex> {
    if now as nat % blocks_per_session == 0 && now as nat / blocks_per_session >= 1 && now as nat
        / blocks_per_session - 1 <= u32::MAX {
        Some((now as nat / blocks_per_session - 1) as SessionIndex)
    } else {
        None
    }
}

/// The reward pool of a session: one hundredth of the issuance, rounded down.
pub open spec fn pool_of_issuance(total_issuance: nat) -> nat {
    total_issuance / 100
}

/// What the mining-power ledger did.
#[derive(PartialEq, Eq, Structural, Clone, Copy, Debug)]
pub enum Event {
    /// The power of an account in a session changed; it carries the new power.
    AccountMiningPowerSet(AccountId, SessionIndex, MiningPower),
    /// The power of all accounts in a session changed; it carries the new total.
    SessionTotalMiningPowerSet(SessionIndex, MiningPower),
}

/// Records mining power per session and account, and the reward pool of each session.
pub trait MiningPowerBuilder {
    /// The number of blocks in a session.
    spec fn session_length(&self) -> nat;

    /// The power of `a` in session `s`.
    spec fn account_power(&self, s: SessionIndex, a: AccountId) -> nat;

    /// The power of all accounts in session `s`.
    spec fn session_power(&self, s: SessionIndex) -> nat;

    /// The changes of power so far, oldest first.
    spec fn power_log(&self) -> Seq<Event>;

    /// The reward pool of session `s`.
    spec fn reward_pool(&self, s: SessionIndex) -> nat;

    /// Whether the reward pool of session `s` has been fixed.
    spec fn reward_pool_fixed(&self, s: SessionIndex) -> bool;

    /// Adds `power` to `target` in the session of block `now`, saturating.
    fn add_mining_power(&mut self, target: &AccountId, power: MiningPower, now: BlockNumber)
        requires
            old(self).session_length() > 0,
        ensures
            final(self).session_length() == old(self).session_length(),
            final(self).account_power(session_of(now, old(self).session_length()), *target)
                == saturating_sum(
                old(self).account_power(session_of(now, old(self).session_length()), *target),
                power as nat,
            ),
            forall|s: SessionIndex, a: AccountId|
                !(s == session_of(now, old(self).session_length()) && a == *target)
                    ==> #[trigger] final(self).account_power(s, a) == old(self).account_power(s, a),
            forall|s: SessionIndex| #[trigger]
                final(self).session_power(s) == old(self).session_power(s),
            forall|s: SessionIndex| #[trigger] final(self).reward_pool(s) == old(self).reward_pool(s)
                && final(self).reward_pool_fixed(s) == old(self).reward_pool_fixed(s),
            final(self).power_log() == old(self).power_log().push(
                Event::AccountMiningPowerSet(
                    *target,
                    session_of(now, old(self).session_length()),
                    final(self).account_power(session_of(now, old(self).session_length()), *target)
                        as MiningPower,
                ),
            ),
    ;

    /// Adds `power` to the total of the session of block `now`, saturating.
    fn add_session_total_mining_power(&mut self, power: MiningPower, now: BlockNumber)
        requires
            old(self).session_length() > 0,
        ensures
            final(self).session_length() == old(self).session_length(),
            final(self).session_power(session_of(now, old(self).session_length()))
                == saturating_sum(
                old(self).session_power(session_of(now, old(self).session_length())),
                power as nat,
            ),
            forall|s: SessionIndex|
                s != session_of(now, old(self).session_length()) ==> #[trigger] final(self).session_power(s) == old(self).session_power(s),
            forall|s: SessionIndex, a: AccountId| #[trigger]
                final(self).account_power(s, a) == old(self).account_power(s, a),
            forall|s: SessionIndex| #[trigger] final(self).reward_pool(s) == old(self).reward_pool(s)
                && final(self).reward_pool_fixed(s) == old(self).reward_pool_fixed(s),
            final(self).power_log() == old(self).power_log().push(
                Event::SessionTotalMiningPowerSet(
                    session_of(now, old(self).session_length()),
                    final(self).session_power(session_of(now, old(self).session_length()))
                        as MiningPower,
                ),
            ),
    ;
}

/// The mining-power ledger.
pub struct Module {
    blocks_per_session: u64,
    account_power: HashMap<u128, MiningPower>,
    total_power: HashMap<SessionIndex, MiningPower>,
    total_reward: HashMap<SessionIndex, Balance>,
    events: Vec<Event>,
}

impl Module {
    /// The number of blocks in a session.
    pub closed spec fn length(&self) -> nat {
        self.blocks_per_session as nat
    }

    /// The power of `a` in session `s`.
    pub closed spec fn power(&self, s: SessionIndex, a: AccountId) -> nat {
        stored_or_zero(self.account_power@, power_key(s, a) as u128)
    }

    /// The power of all accounts in session `s`.
    pub closed spec fn total(&self, s: SessionIndex) -> nat {
        stored_or_zero(self.total_power@, s)
    }

    /// The reward pool of session `s`.
    pub closed spec fn pool(&self, s: SessionIndex) -> nat {
        stored_or_zero(self.total_reward@, s)
    }

    /// Whether the reward pool of session `s` has been fixed.
    pub closed spec fn pool_fixed(&self, s: SessionIndex) -> bool {
        self.total_reward@.contains_key(s)
    }

    /// The changes of power so far, oldest first.
    pub closed spec fn log(&self) -> Seq<Event> {
        self.events@
    }

    /// Sessions have at least one block.
    pub open spec fn wf(&self) -> bool {
        self.length() > 0
    }

    /// What a claim by `who` on session `s` at block `now` gives.
    pub open spec fn claim_result(&self, who: AccountId, s: SessionIndex, now: BlockNumber) -> Result<
        Balance,
        MiningError,
    > {
        if session_of(now, self.length()) <= s {
            Err(MiningError::InvalidSession)
        } else if self.power(s, who) == 0 {
            Err(MiningError::NoMiningPower)
        } else if self.total(s) != 0 && self.power(s, who) * self.pool(s) > u128::MAX {
            Err(MiningError::Overflow)
        } else {
            Ok(reward_share(self.power(s, who), self.total(s), self.pool(s)) as Balance)
        }
    }

    /// `self` is `pre` with the power of `who` in session `s` taken away.
    pub open spec fn taken_from(&self, pre: &Module, s: SessionIndex, who: AccountId) -> bool {
        &&& self.length() == pre.length()
        &&& self.log() == pre.log()
        &&& self.power(s, who) == 0
        &&& forall|s2: SessionIndex, a: AccountId|
            !(s2 == s && a == who) ==> #[trigger] self.power(s2, a) == pre.power(s2, a)
        &&& forall|s2: SessionIndex| #[trigger] self.total(s2) == pre.total(s2)
        &&& forall|s2: SessionIndex| #[trigger] self.pool(s2) == pre.pool(s2)
        &&& forall|s2: SessionIndex| #[trigger] self.pool_fixed(s2) == pre.pool_fixed(s2)
    }

    /// The power of every account and session is that of `pre`.
    pub open spec fn same_powers(&self, pre: &Module) -> bool {
        &&& self.length() == pre.length()
        &&& self.log() == pre.log()
        &&& forall|s2: SessionIndex, a: AccountId| #[trigger] self.power(s2, a) == pre.power(s2, a)
        &&& forall|s2: SessionIndex| #[trigger] self.total(s2) == pre.total(s2)
    }

    proof fn lemma_power_key_injective(s1: SessionIndex, a1: AccountId, s2: SessionIndex, a2: AccountId)
        ensures
            power_key(s1, a1) == power_key(s2, a2) <==> (s1 == s2 && a1 == a2),
            0 <= power_key(s1, a1) <= u128::MAX,
    {
    }

    proof fn lemma_other_keys(s: SessionIndex, a: AccountId)
        ensures
            forall|s2: SessionIndex, a2: AccountId|
                !(s2 == s && a2 == a) ==> #[trigger] power_key(s2, a2) as u128 != power_key(s, a) as u128,
    {
        assert forall|s2: SessionIndex, a2: AccountId| !(s2 == s && a2 == a) implies #[trigger] power_key(
            s2,
            a2,
        ) as u128 != power_key(s, a) as u128 by {
            Self::lemma_power_key_injective(s2, a2, s, a);
            Self::lemma_power_key_injective(s, a, s, a);
        }
    }

    fn key(s: SessionIndex, a: AccountId) -> (k: u128)
        ensures
            k as int == power_key(s, a),
    {
        (s as u128) * 0x1_0000_0000_0000_0000u128 + (a as u128)
    }

    /// A ledger with no power and no pools, whose sessions last `blocks_per_session` blocks.
    pub fn new(blocks_per_session: u64) -> (r: Module)
        requires
            blocks_per_session > 0,
        ensures
            r.wf(),
            r.length() == blocks_per_session,
            forall|s: SessionIndex, a: AccountId| #[trigger] r.power(s, a) == 0,
            forall|s: SessionIndex| #[trigger] r.total(s) == 0,
            forall|s: SessionIndex| #[trigger] r.pool(s) == 0 && !r.pool_fixed(s),
            r.log() == Seq::<Event>::empty(),
    {
        Module {
            blocks_per_session,
            account_power: HashMap::new(),
            total_power: HashMap::new(),
            total_reward: HashMap::new(),
            events: Vec::new(),
        }
    }

    /// The changes of power so far, oldest first.
    pub fn events(&self) -> (r: &Vec<Event>)
        ensures
            r@ == self.log(),
    {
        &self.events
    }

    /// The number of blocks in a session.
    pub fn blocks_per_session(&self) -> (r: u64)
        ensures
            r == self.length(),
    {
        self.blocks_per_session
    }

    /// The session that holds block `now`.
    pub fn get_now_session_index(&self, now: BlockNumber) -> (r: SessionIndex)
        requires
            self.wf(),
        ensures
            r == session_of(now, self.length()),
    {
        let s = now / self.blocks_per_session;
        if s > u32::MAX as u64 {
            u32::MAX
        } else {
            s as u32
        }
    }

    /// The power of `a` in session `s`.
    pub fn session_account_mining_power(&self, s: SessionIndex, a: AccountId) -> (r: MiningPower)
        ensures
            r as nat == self.power(s, a),
    {
        match self.account_power.get(&Self::key(s, a)) {
            Some(p) => *p,
            None => 0,
        }
    }

    /// The power of all accounts in session `s`.
    pub fn session_total_mining_power(&self, s: SessionIndex) -> (r: MiningPower)
        ensures
            r as nat == self.total(s),
    {
        match self.total_power.get(&s) {
            Some(p) => *p,
            None => 0,
        }
    }

    /// The reward pool of session `s`.
    pub fn session_total_reward(&self, s: SessionIndex) -> (r: Balance)
        ensures
            r as nat == self.pool(s),
    {
        match self.total_reward.get(&s) {
            Some(p) => *p,
            None => 0,
        }
    }

    /// What a claim by `who` on session `s` at block `now` would give, without
    /// taking anything.
    pub fn pending_reward(&self, who: AccountId, s: SessionIndex, now: BlockNumber) -> (r: Result<
        Balance,
        MiningError,
    >)
        requires
            self.wf(),
        ensures
            r == self.claim_result(who, s, now),
    {
        let cur = self.get_now_session_index(now);
        if cur <= s {
            return Err(MiningError::InvalidSession);
        }
        let power = self.session_account_mining_power(s, who);
        if power == 0 {
            return Err(MiningError::NoMiningPower);
        }
        let total = self.session_total_mining_power(s);
        let pool = self.session_total_reward(s);
        if total == 0 {
            return Ok(0);
        }
        if pool != 0 && power > u128::MAX / pool {
            proof {
                lemma_product_bound(power, pool);
            }
            return Err(MiningError::Overflow);
        }
        proof {
            if pool != 0 {
                lemma_product_bound(power, pool);
            }
        }
        Ok(power * pool / total)
    }

    /// Pays `who` its share of the reward pool of the ended session `s`, and
    /// takes its power in that session so that it cannot claim twice.
    pub fn claim(&mut self, who: AccountId, s: SessionIndex, now: BlockNumber) -> (r: Result<
        Balance,
        MiningError,
    >)
        requires
            old(self).wf(),
        ensures
            final(self).wf(),
            r == old(self).claim_result(who, s, now),
            r is Ok ==> final(self).taken_from(old(self), s, who),
            r is Err ==> *final(self) == *old(self),
    {
        let r = self.pending_reward(who, s, now);
        if r.is_ok() {
            let k = Self::key(s, who);
            self.account_power.remove(&k);
            proof {
                Self::lemma_other_keys(s, who);
            }
        }
        r
    }

    /// Fixes, at the first block of a session, the reward pool of the session
    /// that just ended: one hundredth of `total_issuance`. A pool once fixed
    /// does not change. Returns the session and the pool where one was fixed.
    pub fn on_initialize(&mut self, now: BlockNumber, total_issuance: Balance) -> (r: Option<
        (SessionIndex, Balance),
    >)
        requires
            old(self).wf(),
        ensures
            final(self).wf(),
            final(self).same_powers(old(self)),
            match closing_session(now, old(self).length()) {
                Some(s) if !old(self).pool_fixed(s) => {
                    &&& r == Some((s, pool_of_issuance(total_issuance as nat) as Balance))
                    &&& final(self).pool_fixed(s)
                    &&& final(self).pool(s) == pool_of_issuance(total_issuance as nat)
                    &&& forall|s2: SessionIndex|
                        s2 != s ==> #[trigger] final(self).pool(s2) == old(self).pool(s2)
                            && final(self).pool_fixed(s2) == old(self).pool_fixed(s2)
                },
                _ => {
                    &&& r is None
                    &&& forall|s2: SessionIndex|
                        #[trigger] final(self).pool(s2) == old(self).pool(s2) && final(self).pool_fixed(s2)
                            == old(self).pool_fixed(s2)
                },
            },
    {
        let len = self.blocks_per_session;
        if now % len == 0 && now / len >= 1 && now / len - 1 <= u32::MAX as u64 {
            let s = (now / len - 1) as u32;
            if !self.total_reward.contains_key(&s) {
                let pool = total_issuance / 100;
                self.total_reward.insert(s, pool);
                return Some((s, pool));
            }
        }
        None
    }
}

impl MiningPowerBuilder for Module {
    open spec fn session_length(&self) -> nat {
        self.length()
    }

    open spec fn account_power(&self, s: SessionIndex, a: AccountId) -> nat {
        self.power(s, a)
    }

    open spec fn session_power(&self, s: SessionIndex) -> nat {
        self.total(s)
    }

    open spec fn power_log(&self) -> Seq<Event> {
        self.log()
    }

    open spec fn reward_pool(&self, s: SessionIndex) -> nat {
        self.pool(s)
    }

    open spec fn reward_pool_fixed(&self, s: SessionIndex) -> bool {
        self.pool_fixed(s)
    }

    fn add_mining_power(&mut self, target: &AccountId, power: MiningPower, now: BlockNumber) {
        let s = self.get_now_session_index(now);
        let pre = self.session_account_mining_power(s, *target);
        let new_power: MiningPower = if power > u128::MAX - pre {
            u128::MAX
        } else {
            pre + power
        };
        self.account_power.insert(Self::key(s, *target), new_power);
        self.events.push(Event::AccountMiningPowerSet(*target, s, new_power));
        proof {
            Self::lemma_other_keys(s, *target);
        }
    }

    fn add_session_total_mining_power(&mut self, power: MiningPower, now: BlockNumber) {
        let s = self.get_now_session_index(now);
        let pre = self.session_total_mining_power(s);
        let new_power: MiningPower = if power > u128::MAX - pre {
            u128::MAX
        } else {
            pre + power
        };
        self.total_power.insert(s, new_power);
        self.events.push(Event::SessionTotalMiningPowerSet(s, new_power));
    }
}

/// A claim that succeeded took the claimant's power: a second claim by the
/// same account on the same session, at the same block or any later one,
/// fails with `NoMiningPower`.
pub proof fn lemma_claim_twice(
    before: Module,
    after: Module,
    who: AccountId,
    s: SessionIndex,
    now: BlockNumber,
    later: BlockNumber,
)
    requires
        before.wf(),
        before.claim_result(who, s, now) is Ok,
        after.taken_from(&before, s, who),
        now <= later,
    ensures
        after.claim_result(who, s, later) == Err::<Balance, MiningError>(MiningError::NoMiningPower),
{
    lemma_div_is_ordered(now as int, later as int, before.length() as int);
}

} // verus!
