use vstd::prelude::*;

use crate::primitives::{AccountId, Balance, CurrencyId};

verus! {

/// A 256-bit digest of a bounty's content, held off the ledger.
pub type SdDigest = [u8; 32];

/// The kind of work a bounty asks for.
#[derive(PartialEq, Eq, Structural, Clone, Copy, Debug)]
pub enum BountyCategory {
    Development,
    Design,
    Document,
}

/// Where a bounty stands in its life.
#[derive(PartialEq, Eq, Structural, Clone, Copy, Debug)]
pub enum BountyState {
    /// Created and waiting for the council.
    Applying,
    /// Accepted by the council and open to hunters.
    Accepted,
    /// Rejected by the council.
    Rejected,
    /// Closed by its funder.
    Closed,
    /// Given to one hunter.
    Assigned,
    /// Closed by the council after it went stale.
    Outdated,
    /// Its hunter has handed in the work.
    Submitted,
    /// Paid out.
    Resolved,
}

impl Default for BountyState {
    fn default() -> (r: BountyState)
        ensures
            r == BountyState::Applying,
    {
        BountyState::Applying
    }
}

/// A state after which nothing more happens to a bounty.
pub open spec fn is_terminal(s: BountyState) -> bool {
    match s {
        BountyState::Rejected | BountyState::Closed | BountyState::Outdated
        | BountyState::Resolved => true,
        _ => false,
    }
}

/// What a bounty offers: who pays, in what currency, how much, for what content.
#[derive(PartialEq, Eq, Clone, Copy, Debug)]
pub struct BountyMetaData {
    pub owner: AccountId,
    pub currency_id: CurrencyId,
    pub payment: Balance,
    pub digest: SdDigest,
}

/// A bounty record, versioned so that later layouts can be told apart.
#[derive(PartialEq, Eq, Clone, Copy, Debug)]
pub enum Bounty {
    V1(BountyMetaData),
}

impl Bounty {
    /// The account that funds the bounty.
    pub open spec fn owner(&self) -> AccountId {
        match self {
            Bounty::V1(m) => m.owner,
        }
    }

    /// The currency the bounty pays in.
    pub open spec fn currency(&self) -> CurrencyId {
        match self {
            Bounty::V1(m) => m.currency_id,
        }
    }

    /// The amount the bounty pays.
    pub open spec fn payment(&self) -> Balance {
        match self {
            Bounty::V1(m) => m.payment,
        }
    }
}

/// Settings of a bounty that do not touch the ledger.
#[derive(PartialEq, Eq, Structural, Clone, Copy, Debug)]
pub struct SettingData {
    pub category: BountyCategory,
}

/// Why the council closes a bounty.
#[derive(PartialEq, Eq, Structural, Clone, Copy, Debug)]
pub enum CloseReason {
    Outdated,
    InvalidState,
}

/// What a hunter holds of a bounty: an interest, or the work itself.
#[derive(PartialEq, Eq, Structural, Clone, Copy, Debug)]
pub enum HunterBountyState {
    Hunting,
    Processing,
}

impl Default for HunterBountyState {
    fn default() -> (r: HunterBountyState)
        ensures
            r == HunterBountyState::Hunting,
    {
        HunterBountyState::Hunting
    }
}

} // verus!
