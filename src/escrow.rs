use std::collections::HashMap;
use vstd::math::min;
use vstd::prelude::*;

use crate::primitives::{currency_index, AccountId, Balance, CurrencyId};

verus! {

/// Why a movement of funds was refused.
#[derive(PartialEq, Eq, Structural, Clone, Copy, Debug)]
pub enum EscrowError {
    /// The free balance does not cover the amount.
    BalanceTooLow,
    /// A balance would leave the range of `Balance`.
    Overflow,
}

/// The slot of the purse of `a` in currency `c`: one slot per pair.
pub open spec fn purse_key(c: CurrencyId, a: AccountId) -> int {
    a as int * 4 + currency_index(c)
}

/// The value under `k`, zero where there is none.
pub open spec fn value_or_zero(m: Map<u128, u128>, k: int) -> nat {
    if m.contains_key(k as u128) {
        m[k as u128] as nat
    } else {
        0
    }
}

/// Two purses are the same purse only for the same currency and account.
pub proof fn lemma_purse_key_injective(c1: CurrencyId, a1: AccountId, c2: CurrencyId, a2: AccountId)
    ensures
        purse_key(c1, a1) == purse_key(c2, a2) <==> (c1 == c2 && a1 == a2),
{
}

/// A multi-currency ledger of free and reserved balances.
///
/// Reserved funds are held against a purpose and cannot be spent until they
/// are released to the owner or moved to another account.
pub struct Escrow {
    free: HashMap<u128, Balance>,
    reserved: HashMap<u128, Balance>,
    issuance: HashMap<u128, Balance>,
}

impl Escrow {
    /// The spendable balance of `a` in `c`.
    pub closed spec fn free(&self, c: CurrencyId, a: AccountId) -> nat {
        value_or_zero(self.free@, purse_key(c, a))
    }

    /// The balance of `a` in `c` that is held in reserve.
    pub closed spec fn reserved(&self, c: CurrencyId, a: AccountId) -> nat {
        value_or_zero(self.reserved@, purse_key(c, a))
    }

    /// All of `c` that was ever deposited.
    pub closed spec fn issuance(&self, c: CurrencyId) -> nat {
        value_or_zero(self.issuance@, currency_index(c) as int)
    }

    /// Every purse's total fits in a `Balance`.
    pub closed spec fn wf(&self) -> bool {
        forall|c: CurrencyId, a: AccountId|
            #[trigger] self.free(c, a) + self.reserved(c, a) <= u128::MAX
    }

    /// Balances of `other` equal those of `self` except in the purse of `a` in `c`.
    pub open spec fn same_except(&self, other: &Escrow, c: CurrencyId, a: AccountId) -> bool {
        &&& forall|c2: CurrencyId, a2: AccountId|
            !(c2 == c && a2 == a) ==> #[trigger] other.free(c2, a2) == self.free(c2, a2)
        &&& forall|c2: CurrencyId, a2: AccountId|
            !(c2 == c && a2 == a) ==> #[trigger] other.reserved(c2, a2) == self.reserved(c2, a2)
    }

    /// Balances of `other` equal those of `self` except in the purses of `a` and `b` in `c`.
    pub open spec fn same_except2(
        &self,
        other: &Escrow,
        c: CurrencyId,
        a: AccountId,
        b: AccountId,
    ) -> bool {
        &&& forall|c2: CurrencyId, a2: AccountId|
            !(c2 == c && (a2 == a || a2 == b)) ==> #[trigger] other.free(c2, a2) == self.free(
                c2,
                a2,
            )
        &&& forall|c2: CurrencyId, a2: AccountId|
            !(c2 == c && (a2 == a || a2 == b)) ==> #[trigger] other.reserved(c2, a2)
                == self.reserved(c2, a2)
    }

    /// The ledger is unchanged.
    pub open spec fn same_balances(&self, other: &Escrow) -> bool {
        &&& forall|c2: CurrencyId, a2: AccountId| #[trigger] other.free(c2, a2) == self.free(c2, a2)
        &&& forall|c2: CurrencyId, a2: AccountId|
            #[trigger] other.reserved(c2, a2) == self.reserved(c2, a2)
        &&& forall|c2: CurrencyId| #[trigger] other.issuance(c2) == self.issuance(c2)
    }

    fn key(c: CurrencyId, a: AccountId) -> (k: u128)
        ensures
            k as int == purse_key(c, a),
    {
        (a as u128) * 4 + (c.index() as u128)
    }

    fn read(m: &HashMap<u128, Balance>, k: u128) -> (r: Balance)
        ensures
            r as nat == value_or_zero(m@, k as int),
    {
        match m.get(&k) {
            Some(v) => *v,
            None => 0,
        }
    }

    fn write(m: &mut HashMap<u128, Balance>, k: u128, v: Balance)
        ensures
            value_or_zero(final(m)@, k as int) == v as nat,
            forall|j: int| 0 <= j <= u128::MAX && j != k as int ==> value_or_zero(final(m)@, j) == value_or_zero(old(m)@, j),
    {
        m.insert(k, v);
    }

    proof fn lemma_other_purses(c: CurrencyId, a: AccountId)
        ensures
            forall|c2: CurrencyId, a2: AccountId|
                !(c2 == c && a2 == a) ==> #[trigger] purse_key(c2, a2) != purse_key(c, a),
    {
        assert forall|c2: CurrencyId, a2: AccountId| !(c2 == c && a2 == a) implies #[trigger] purse_key(
            c2,
            a2,
        ) != purse_key(c, a) by {
            lemma_purse_key_injective(c2, a2, c, a);
        }
    }

    proof fn lemma_wf_kept(old_e: &Escrow, new_e: &Escrow, c: CurrencyId, a: AccountId, b: AccountId)
        requires
            old_e.wf(),
            old_e.same_except2(new_e, c, a, b),
            new_e.free(c, a) + new_e.reserved(c, a) <= u128::MAX,
            new_e.free(c, b) + new_e.reserved(c, b) <= u128::MAX,
        ensures
            new_e.wf(),
    {
        assert forall|c2: CurrencyId, a2: AccountId|
            #[trigger] new_e.free(c2, a2) + new_e.reserved(c2, a2) <= u128::MAX by {
            if !(c2 == c && (a2 == a || a2 == b)) {
                assert(old_e.free(c2, a2) + old_e.reserved(c2, a2) <= u128::MAX);
            }
        }
    }

    /// An empty ledger.
    pub fn new() -> (r: Escrow)
        ensures
            r.wf(),
            forall|c: CurrencyId, a: AccountId| #[trigger] r.free(c, a) == 0 && r.reserved(c, a) == 0,
            forall|c: CurrencyId| #[trigger] r.issuance(c) == 0,
    {
        Escrow { free: HashMap::new(), reserved: HashMap::new(), issuance: HashMap::new() }
    }

    /// The spendable balance of `a` in `c`.
    pub fn free_balance(&self, c: CurrencyId, a: AccountId) -> (r: Balance)
        ensures
            r as nat == self.free(c, a),
    {
        Self::read(&self.free, Self::key(c, a))
    }

    /// The reserved balance of `a` in `c`.
    pub fn reserved_balance(&self, c: CurrencyId, a: AccountId) -> (r: Balance)
        ensures
            r as nat == self.reserved(c, a),
    {
        Self::read(&self.reserved, Self::key(c, a))
    }

    /// All of `c` that was ever deposited.
    pub fn total_issuance(&self, c: CurrencyId) -> (r: Balance)
        ensures
            r as nat == self.issuance(c),
    {
        Self::read(&self.issuance, c.index() as u128)
    }

    /// Credits `amount` of `c` to the free balance of `a`, creating it.
    pub fn deposit(&mut self, c: CurrencyId, a: AccountId, amount: Balance) -> (r: Result<
        (),
        EscrowError,
    >)
        requires
            old(self).wf(),
        ensures
            final(self).wf(),
            r is Err <==> (old(self).free(c, a) + old(self).reserved(c, a) + amount > u128::MAX
                || old(self).issuance(c) + amount > u128::MAX),
            r is Err ==> r == Err::<(), EscrowError>(EscrowError::Overflow) && final(self).same_balances(
                old(self),
            ),
            r is Ok ==> {
                &&& final(self).free(c, a) == old(self).free(c, a) + amount
                &&& final(self).reserved(c, a) == old(self).reserved(c, a)
                &&& final(self).issuance(c) == old(self).issuance(c) + amount
                &&& forall|c2: CurrencyId| c2 != c ==> #[trigger] final(self).issuance(c2)
                    == old(self).issuance(c2)
                &&& old(self).same_except(final(self), c, a)
            },
    {
        let k = Self::key(c, a);
        let f = Self::read(&self.free, k);
        let rs = Self::read(&self.reserved, k);
        let ik = c.index() as u128;
        let total = Self::read(&self.issuance, ik);
        if amount > u128::MAX - f || f + amount > u128::MAX - rs || amount > u128::MAX - total {
            return Err(EscrowError::Overflow);
        }
        Self::write(&mut self.free, k, f + amount);
        Self::write(&mut self.issuance, ik, total + amount);
        proof {
            Self::lemma_other_purses(c, a);
            Self::lemma_wf_kept(old(self), self, c, a, a);
            assert forall|c2: CurrencyId| c2 != c implies #[trigger] self.issuance(c2) == old(self).issuance(c2) by {
                assert(currency_index(c2) != currency_index(c));
            }
        }
        Ok(())
    }

    /// Whether `a` has at least `amount` of `c` free to reserve.
    pub fn can_reserve(&self, c: CurrencyId, a: AccountId, amount: Balance) -> (r: bool)
        ensures
            r == (amount <= self.free(c, a)),
    {
        amount <= self.free_balance(c, a)
    }

    /// Moves `amount` of `c` from the free to the reserved balance of `a`.
    pub fn reserve(&mut self, c: CurrencyId, a: AccountId, amount: Balance) -> (r: Result<
        (),
        EscrowError,
    >)
        requires
            old(self).wf(),
        ensures
            final(self).wf(),
            r is Err <==> amount > old(self).free(c, a),
            r is Err ==> r == Err::<(), EscrowError>(EscrowError::BalanceTooLow) && final(self).same_balances(old(self)),
            r is Ok ==> {
                &&& final(self).free(c, a) == old(self).free(c, a) - amount
                &&& final(self).reserved(c, a) == old(self).reserved(c, a) + amount
                &&& old(self).same_except(final(self), c, a)
                &&& forall|c2: CurrencyId| #[trigger] final(self).issuance(c2) == old(self).issuance(c2)
            },
    {
        let k = Self::key(c, a);
        let f = Self::read(&self.free, k);
        let rs = Self::read(&self.reserved, k);
        if amount > f {
            return Err(EscrowError::BalanceTooLow);
        }
        proof {
            assert(self.free(c, a) + self.reserved(c, a) <= u128::MAX);
        }
        Self::write(&mut self.free, k, f - amount);
        Self::write(&mut self.reserved, k, rs + amount);
        proof {
            Self::lemma_other_purses(c, a);
            Self::lemma_wf_kept(old(self), self, c, a, a);
        }
        Ok(())
    }

    /// Moves up to `amount` of `c` from the reserved back to the free balance of
    /// `a`, and returns the part of `amount` that was not reserved.
    pub fn unreserve(&mut self, c: CurrencyId, a: AccountId, amount: Balance) -> (r: Balance)
        requires
            old(self).wf(),
        ensures
            final(self).wf(),
            r as int == amount - min(amount as int, old(self).reserved(c, a) as int),
            final(self).reserved(c, a) == old(self).reserved(c, a) - (amount - r),
            final(self).free(c, a) == old(self).free(c, a) + (amount - r),
            old(self).same_except(final(self), c, a),
            forall|c2: CurrencyId| #[trigger] final(self).issuance(c2) == old(self).issuance(c2),
    {
        let k = Self::key(c, a);
        let f = Self::read(&self.free, k);
        let rs = Self::read(&self.reserved, k);
        let actual: Balance = if amount < rs {
            amount
        } else {
            rs
        };
        proof {
            assert(self.free(c, a) + self.reserved(c, a) <= u128::MAX);
        }
        Self::write(&mut self.free, k, f + actual);
        Self::write(&mut self.reserved, k, rs - actual);
        proof {
            Self::lemma_other_purses(c, a);
            Self::lemma_wf_kept(old(self), self, c, a, a);
        }
        amount - actual
    }

    /// Moves up to `amount` of `c` from the reserved balance of `from` to the
    /// free balance of `to`, and returns the part of `amount` that was not
    /// reserved.
    pub fn repatriate_reserved(
        &mut self,
        c: CurrencyId,
        from: AccountId,
        to: AccountId,
        amount: Balance,
    ) -> (r: Result<Balance, EscrowError>)
        requires
            old(self).wf(),
        ensures
            final(self).wf(),
            forall|c2: CurrencyId| #[trigger] final(self).issuance(c2) == old(self).issuance(c2),
            r is Err <==> (from != to && old(self).free(c, to) + old(self).reserved(c, to) + min(
                amount as int,
                old(self).reserved(c, from) as int,
            ) > u128::MAX),
            r is Err ==> r == Err::<Balance, EscrowError>(EscrowError::Overflow) && final(self).same_balances(old(self)),
            r matches Ok(rest) ==> {
                &&& rest as int == amount - min(amount as int, old(self).reserved(c, from) as int)
                &&& final(self).reserved(c, from) == old(self).reserved(c, from) - (amount - rest)
                &&& final(self).free(c, to) == old(self).free(c, to) + (amount - rest)
                &&& from != to ==> final(self).free(c, from) == old(self).free(c, from)
                &&& from != to ==> final(self).reserved(c, to) == old(self).reserved(c, to)
                &&& old(self).same_except2(final(self), c, from, to)
            },
    {
        if from == to {
            let rest = self.unreserve(c, from, amount);
            return Ok(rest);
        }
        let kf = Self::key(c, from);
        let kt = Self::key(c, to);
        let rs = Self::read(&self.reserved, kf);
        let tf = Self::read(&self.free, kt);
        let tr = Self::read(&self.reserved, kt);
        let actual: Balance = if amount < rs {
            amount
        } else {
            rs
        };
        if actual > u128::MAX - tf || tf + actual > u128::MAX - tr {
            return Err(EscrowError::Overflow);
        }
        proof {
            lemma_purse_key_injective(c, from, c, to);
        }
        Self::write(&mut self.reserved, kf, rs - actual);
        Self::write(&mut self.free, kt, tf + actual);
        proof {
            Self::lemma_other_purses(c, from);
            Self::lemma_other_purses(c, to);
            assert(old(self).free(c, from) + old(self).reserved(c, from) <= u128::MAX);
            Self::lemma_wf_kept(old(self), self, c, from, to);
        }
        Ok(amount - actual)
    }
}

} // verus!
