use vstd::prelude::*;

verus! {

/// An account on the ledger.
pub type AccountId = u64;

/// An amount of some currency.
pub type Balance = u128;

/// A block height.
pub type BlockNumber = u64;

/// The identifier of a bounty: a 256-bit digest, as its low and high 128 bits.
pub type BountyId = (u128, u128);

/// The currencies that the ledger knows.
#[derive(PartialEq, Eq, Structural, Clone, Copy, Debug, PartialOrd, Ord, Hash)]
pub enum CurrencyId {
    Native,
    USDT,
    AUSD,
    DOT,
}

/// A small integer that tells the currencies apart.
pub open spec fn currency_index(c: CurrencyId) -> nat {
    match c {
        CurrencyId::Native => 0,
        CurrencyId::USDT => 1,
        CurrencyId::AUSD => 2,
        CurrencyId::DOT => 3,
    }
}

impl CurrencyId {
    /// The index of the currency, from 0 to 3.
    pub fn index(&self) -> (r: u8)
        ensures
            r as nat == currency_index(*self),
    {
        match self {
            CurrencyId::Native => 0,
            CurrencyId::USDT => 1,
            CurrencyId::AUSD => 2,
            CurrencyId::DOT => 3,
        }
    }
}

} // verus!
