use std::collections::{BTreeMap, HashMap};
use vstd::prelude::*;

use crate::arith::{lemma_nearest_within, mul_div_floor, mul_div_nearest, saturating_mul};
use crate::bounty_id::{bounty_id_for, bounty_id_of};
use crate::escrow::Escrow;
use crate::mining::{self, MiningError, MiningPowerBuilder, SessionIndex};
use crate::primitives::{currency_index, AccountId, Balance, BlockNumber, BountyId, CurrencyId};
use crate::reputation::{self, Behavior, BountyRemarkCollaborationResult, BountyResolveCollaborationResult, ReputationBuilder};
use crate::tracker::HunterTracker;
use crate::types::{is_terminal, Bounty, BountyState, CloseReason, HunterBountyState};

verus! {

broadcast use {vstd::std_specs::hash::group_hash_axioms, vstd::std_specs::btree::group_btree_axioms};

/// Why an action on a bounty was refused. A refused action changes nothing.
#[derive(PartialEq, Eq, Structural, Clone, Copy, Debug)]
pub enum Error {
    /// No bounty has this id.
    NotExisted,
    /// A bounty with this id exists already.
    Existed,
    /// The funder cannot reserve the payment.
    CantPay,
    /// The bounty has not gone stale yet.
    ValidBounty,
    /// The bounty's state does not allow the action.
    InvalidState,
    /// The caller does not fund the bounty.
    NotFunder,
    /// The hunter holds as many bounties as it may.
    TooManyHuntedBounties,
    /// The hunter already hunts the bounty.
    AlreadyHunted,
    /// The bounty is already assigned to this hunter.
    AlreadyAssigned,
    /// The account does not hunt the bounty.
    NotHunter,
    /// The account is not the bounty's assignee.
    NotAssignee,
    /// A balance would leave the range of `Balance`.
    Overflow,
}

/// What an action did, as observers outside the ledger see it.
#[derive(PartialEq, Eq, Clone, Copy, Debug)]
pub enum Event {
    ApplyBounty(AccountId, BountyId),
    Accept(BountyId),
    Reject(BountyId),
    Close(BountyId, Balance),
    ForceClosed(BountyId, CloseReason, Balance),
    HuntBounty(BountyId, AccountId),
    CancelHuntBounty(BountyId, AccountId),
    AssignBounty(BountyId, AccountId),
    Submit(BountyId),
    Resign(BountyId, AccountId),
    Resolve(BountyId),
    FunderRemark(BountyId, AccountId, BountyRemarkCollaborationResult),
    HunterRemark(BountyId, BountyRemarkCollaborationResult),
    RewardClaimed(AccountId, SessionIndex, Balance),
    SessionTotalRewardSet(SessionIndex, Balance),
}

/// How many bounties a hunter may hold at once, unless configured otherwise.
pub const DEFAULT_MAX_HOLDING_BOUNTIES: u32 = 10;

/// How many blocks an accepted or assigned bounty stays valid, unless
/// configured otherwise.
pub const DEFAULT_OUTDATED_HEIGHT: BlockNumber = 1000;

/// The council's cut of `payment`: `percent` hundredths, rounded to the
/// nearest integer, an exact half rounded down.
pub open spec fn council_fee_of(payment: nat, percent: nat) -> nat {
    (payment * percent / 100 + (if (payment * percent) % 100 > 50 {
        1int
    } else {
        0int
    })) as nat
}

/// `a * b`, held at the largest `u128`.
pub open spec fn saturating_product(a: nat, b: nat) -> nat {
    if a * b > u128::MAX {
        u128::MAX as nat
    } else {
        a * b
    }
}

/// The funder's nine tenths of the mining power of a resolution, rounded down.
pub open spec fn funder_power_of(total: nat) -> nat {
    total * 9 / 10
}

/// The hunter's tenth of the mining power of a resolution, rounded down.
pub open spec fn hunter_power_of(total: nat) -> nat {
    total / 10
}

/// `p` plus `amount` where `a` is `who`, saturating; `p` elsewhere.
pub open spec fn credit(p: nat, a: AccountId, who: AccountId, amount: nat) -> nat {
    if a == who {
        mining::saturating_sum(p, amount)
    } else {
        p
    }
}

/// `s` plus `amount` where `a` is `who`, saturating; `s` elsewhere.
pub open spec fn credit_score(s: int, a: AccountId, who: AccountId, amount: int) -> int {
    if a == who {
        reputation::saturate_i128(s + amount)
    } else {
        s
    }
}

/// What `x` receives when a payout sends `to_hunter` to `hunter` and
/// `to_council` to `council`.
pub open spec fn paid_to(
    x: AccountId,
    hunter: AccountId,
    to_hunter: nat,
    council: AccountId,
    to_council: nat,
) -> nat {
    (if x == hunter {
        to_hunter
    } else {
        0
    }) + (if x == council {
        to_council
    } else {
        0
    })
}

/// Whether a bounty in state `s` still holds its payment in reserve.
pub open spec fn holds_payment(s: BountyState) -> bool {
    !is_terminal(s)
}

/// The part of the reserve of `a` in `c` that bounty `b` holds.
pub open spec fn contribution(
    states: Map<BountyId, BountyState>,
    bounties: Map<BountyId, Bounty>,
    b: BountyId,
    c: CurrencyId,
    a: AccountId,
) -> nat {
    if states.contains_key(b) && bounties.contains_key(b) && holds_payment(states[b])
        && bounties[b].owner() == a && bounties[b].currency() == c {
        bounties[b].payment() as nat
    } else {
        0
    }
}

/// The part of the reserve of `a` in `c` that the bounties `ids` hold.
pub open spec fn locked_in(
    states: Map<BountyId, BountyState>,
    bounties: Map<BountyId, Bounty>,
    ids: Seq<BountyId>,
    c: CurrencyId,
    a: AccountId,
) -> nat
    decreases ids.len(),
{
    if ids.len() == 0 {
        0
    } else {
        locked_in(states, bounties, ids.drop_last(), c, a) + contribution(
            states,
            bounties,
            ids.last(),
            c,
            a,
        )
    }
}

/// Bounties that hold the same part in two registries hold the same sum.
pub proof fn lemma_locked_same(
    s1: Map<BountyId, BountyState>,
    b1: Map<BountyId, Bounty>,
    s2: Map<BountyId, BountyState>,
    b2: Map<BountyId, Bounty>,
    ids: Seq<BountyId>,
    c: CurrencyId,
    a: AccountId,
)
    requires
        forall|i: int|
            0 <= i < ids.len() ==> contribution(s1, b1, #[trigger] ids[i], c, a) == contribution(
                s2,
                b2,
                ids[i],
                c,
                a,
            ),
    ensures
        locked_in(s1, b1, ids, c, a) == locked_in(s2, b2, ids, c, a),
    decreases ids.len(),
{
    if ids.len() > 0 {
        let rest = ids.drop_last();
        assert forall|i: int| 0 <= i < rest.len() implies contribution(s1, b1, #[trigger] rest[i], c, a)
            == contribution(s2, b2, rest[i], c, a) by {
            assert(rest[i] == ids[i]);
        }
        lemma_locked_same(s1, b1, s2, b2, rest, c, a);
        assert(ids.last() == ids[ids.len() - 1]);
    }
}

/// Where only bounty `x` holds a different part, the sum differs by as much.
pub proof fn lemma_locked_change(
    s1: Map<BountyId, BountyState>,
    b1: Map<BountyId, Bounty>,
    s2: Map<BountyId, BountyState>,
    b2: Map<BountyId, Bounty>,
    ids: Seq<BountyId>,
    x: BountyId,
    c: CurrencyId,
    a: AccountId,
)
    requires
        ids.no_duplicates(),
        ids.contains(x),
        forall|i: int|
            0 <= i < ids.len() && ids[i] != x ==> contribution(s1, b1, #[trigger] ids[i], c, a)
                == contribution(s2, b2, ids[i], c, a),
    ensures
        locked_in(s2, b2, ids, c, a) + contribution(s1, b1, x, c, a) == locked_in(s1, b1, ids, c, a)
            + contribution(s2, b2, x, c, a),
    decreases ids.len(),
{
    let rest = ids.drop_last();
    assert forall|i: int| 0 <= i < rest.len() implies rest[i] == ids[i] by {}
    if ids.last() == x {
        assert forall|i: int| 0 <= i < rest.len() implies contribution(s1, b1, #[trigger] rest[i], c, a)
            == contribution(s2, b2, rest[i], c, a) by {
            assert(rest[i] == ids[i]);
            assert(ids[i] != ids[ids.len() - 1]);
        }
        lemma_locked_same(s1, b1, s2, b2, rest, c, a);
    } else {
        let k = choose|k: int| 0 <= k < ids.len() && ids[k] == x;
        assert(k != ids.len() - 1);
        assert(rest[k] == x);
        assert forall|i: int| 0 <= i < rest.len() && rest[i] != x implies contribution(s1, b1, #[trigger] rest[i], c, a)
            == contribution(s2, b2, rest[i], c, a) by {
            assert(rest[i] == ids[i]);
        }
        assert(rest.no_duplicates()) by {
            assert forall|i: int, j: int| 0 <= i < rest.len() && 0 <= j < rest.len() && i != j implies rest[i] != rest[j] by {
                assert(rest[i] == ids[i] && rest[j] == ids[j]);
            }
        }
        lemma_locked_change(s1, b1, s2, b2, rest, x, c, a);
        assert(ids.last() == ids[ids.len() - 1]);
    }
}

/// The sum covers the part of each of its bounties.
pub proof fn lemma_locked_covers(
    states: Map<BountyId, BountyState>,
    bounties: Map<BountyId, Bounty>,
    ids: Seq<BountyId>,
    x: BountyId,
    c: CurrencyId,
    a: AccountId,
)
    requires
        ids.contains(x),
    ensures
        locked_in(states, bounties, ids, c, a) >= contribution(states, bounties, x, c, a),
    decreases ids.len(),
{
    let rest = ids.drop_last();
    if ids.last() != x {
        let k = choose|k: int| 0 <= k < ids.len() && ids[k] == x;
        assert(k != ids.len() - 1);
        assert(rest[k] == x);
        lemma_locked_covers(states, bounties, rest, x, c, a);
    }
}

/// The bounty registry and its state machine, with the ledgers that its
/// actions move: escrow, reputation and mining power.
pub struct Module {
    bounties: BTreeMap<BountyId, Bounty>,
    states: BTreeMap<BountyId, BountyState>,
    approved_height: BTreeMap<BountyId, BlockNumber>,
    assigned_height: BTreeMap<BountyId, BlockNumber>,
    tracker: HunterTracker,
    currency_ratios: HashMap<u8, u128>,
    max_holding_bounties: u32,
    outdated_height: BlockNumber,
    council_fee: u8,
    council_account: AccountId,
    escrow: Escrow,
    reputation: reputation::Module,
    mining: mining::Module,
    events: Vec<Event>,
    resolvers: BTreeMap<BountyId, AccountId>,
    ids: Ghost<Seq<BountyId>>,
}

impl Module {
    /// The state of bounty `b`, if it exists.
    pub closed spec fn state(&self, b: BountyId) -> Option<BountyState> {
        if self.states@.contains_key(b) {
            Some(self.states@[b])
        } else {
            None
        }
    }

    /// The record of bounty `b`, if it exists.
    pub closed spec fn bounty(&self, b: BountyId) -> Option<Bounty> {
        if self.bounties@.contains_key(b) {
            Some(self.bounties@[b])
        } else {
            None
        }
    }

    /// The block at which bounty `b` last became `Accepted` (zero if never).
    pub closed spec fn approved_at(&self, b: BountyId) -> nat {
        if self.approved_height@.contains_key(b) {
            self.approved_height@[b] as nat
        } else {
            0
        }
    }

    /// The block at which bounty `b` last became `Assigned` (zero if never).
    pub closed spec fn assigned_at(&self, b: BountyId) -> nat {
        if self.assigned_height@.contains_key(b) {
            self.assigned_height@[b] as nat
        } else {
            0
        }
    }

    /// Who hunts which bounty.
    pub closed spec fn hunters(&self) -> HunterTracker {
        self.tracker
    }

    /// The escrow ledger.
    pub closed spec fn ledger(&self) -> Escrow {
        self.escrow
    }

    /// The reputation ledger.
    pub closed spec fn scores(&self) -> reputation::Module {
        self.reputation
    }

    /// The mining-power ledger.
    pub closed spec fn powers(&self) -> mining::Module {
        self.mining
    }

    /// How many bounties a hunter may hold at once.
    pub closed spec fn max_holding(&self) -> nat {
        self.max_holding_bounties as nat
    }

    /// How many blocks an accepted or assigned bounty stays valid.
    pub closed spec fn outdated_after(&self) -> nat {
        self.outdated_height as nat
    }

    /// The council's cut of a payment, in percent.
    pub closed spec fn fee_percent(&self) -> nat {
        self.council_fee as nat
    }

    /// The account that receives the council's cut.
    pub closed spec fn council(&self) -> AccountId {
        self.council_account
    }

    /// The mining power that one unit of currency `c` is worth.
    pub closed spec fn ratio(&self, c: CurrencyId) -> nat {
        if self.currency_ratios@.contains_key(currency_index(c) as u8) {
            self.currency_ratios@[currency_index(c) as u8] as nat
        } else {
            0
        }
    }

    /// The hunter that was paid for bounty `b` and has not remarked its
    /// funder yet.
    pub closed spec fn resolver(&self, b: BountyId) -> Option<AccountId> {
        if self.resolvers@.contains_key(b) {
            Some(self.resolvers@[b])
        } else {
            None
        }
    }

    /// The events of the actions so far, oldest first.
    pub closed spec fn log(&self) -> Seq<Event> {
        self.events@
    }

    /// The part of the reserve of `a` in `c` that live bounties hold.
    pub closed spec fn locked(&self, c: CurrencyId, a: AccountId) -> nat {
        locked_in(self.states@, self.bounties@, self.ids@, c, a)
    }

    /// The registry is consistent: a bounty has a state exactly when it has a
    /// record; only live bounties have hunters; an assigned or submitted
    /// bounty has an assignee; no hunter holds more than allowed; and each
    /// account's reserve covers the payments of its bounties that have not
    /// ended.
    pub closed spec fn wf(&self) -> bool {
        &&& self.bounties@.dom() == self.states@.dom()
        &&& self.tracker.wf()
        &&& self.escrow.wf()
        &&& self.mining.wf()
        &&& self.council_fee <= 100
        &&& forall|h: AccountId| #[trigger] self.tracker.count(h) <= self.max_holding_bounties
        &&& forall|b: BountyId|
            #[trigger] self.state(b) == Some(BountyState::Assigned) || self.state(b) == Some(
                BountyState::Submitted,
            ) ==> self.tracker.assignee(b) is Some
        &&& forall|b: BountyId| #[trigger]
            self.tracker.assignee(b) is Some ==> self.state(b) == Some(BountyState::Assigned)
                || self.state(b) == Some(BountyState::Submitted)
        &&& forall|b: BountyId, h: AccountId| #[trigger]
            self.tracker.hunting(b, h) ==> self.state(b) == Some(BountyState::Accepted) || self.state(
                b,
            ) == Some(BountyState::Assigned) || self.state(b) == Some(BountyState::Submitted)
        &&& self.ids@.no_duplicates()
        &&& forall|b: BountyId|
            #![trigger self.states@.contains_key(b)]
            #![trigger self.ids@.contains(b)]
            self.states@.contains_key(b) <==> self.ids@.contains(b)
        &&& forall|c: CurrencyId, a: AccountId| #[trigger] self.escrow.reserved(c, a) >= self.locked(c, a)
    }

    /// The configuration of `other` is that of `self`.
    pub open spec fn same_config(&self, other: &Module) -> bool {
        &&& other.max_holding() == self.max_holding()
        &&& other.outdated_after() == self.outdated_after()
        &&& other.fee_percent() == self.fee_percent()
        &&& other.council() == self.council()
        &&& forall|c: CurrencyId| #[trigger] other.ratio(c) == self.ratio(c)
    }

    /// In `other`, every bounty but `b` stands as in `self`.
    pub open spec fn same_other_bounties(&self, other: &Module, b: BountyId) -> bool {
        &&& forall|b2: BountyId| b2 != b ==> #[trigger] other.state(b2) == self.state(b2)
        &&& forall|b2: BountyId| b2 != b ==> #[trigger] other.bounty(b2) == self.bounty(b2)
        &&& forall|b2: BountyId| b2 != b ==> #[trigger] other.approved_at(b2) == self.approved_at(b2)
        &&& forall|b2: BountyId| b2 != b ==> #[trigger] other.assigned_at(b2) == self.assigned_at(b2)
        &&& forall|b2: BountyId| b2 != b ==> #[trigger] other.resolver(b2) == self.resolver(b2)
        &&& self.hunters().same_except(&other.hunters(), b)
    }
}

impl Module {
    proof fn lemma_wf_frame(pre: &Module, post: &Module)
        requires
            pre.wf(),
            post.bounties@ == pre.bounties@,
            post.states@ == pre.states@,
            post.tracker == pre.tracker,
            post.max_holding_bounties == pre.max_holding_bounties,
            post.council_fee == pre.council_fee,
            post.escrow.wf(),
            post.mining.wf(),
            post.ids@ == pre.ids@,
            forall|c: CurrencyId, a: AccountId| #[trigger] post.escrow.reserved(c, a) == pre.escrow.reserved(c, a),
        ensures
            post.wf(),
    {
        assert forall|c: CurrencyId, a: AccountId| #[trigger] post.escrow.reserved(c, a) >= post.locked(c, a) by {
            assert(pre.escrow.reserved(c, a) >= pre.locked(c, a));
        }
        assert forall|b: BountyId| #[trigger] post.tracker.assignee(b) is Some implies post.state(b)
            == Some(BountyState::Assigned) || post.state(b) == Some(BountyState::Submitted) by {
            assert(pre.state(b) == post.state(b));
        }
        assert forall|b: BountyId| #[trigger] post.state(b) == pre.state(b) by {}
        assert forall|b: BountyId|
            #[trigger] post.state(b) == Some(BountyState::Assigned) || post.state(b) == Some(
                BountyState::Submitted,
            ) implies post.tracker.assignee(b) is Some by {
            assert(pre.state(b) == post.state(b));
        }
        assert forall|b: BountyId, h: AccountId| #[trigger]
            post.tracker.hunting(b, h) implies post.state(b) == Some(BountyState::Accepted) || post.state(
                b,
            ) == Some(BountyState::Assigned) || post.state(b) == Some(BountyState::Submitted) by {
            assert(pre.tracker.hunting(b, h));
            assert(pre.state(b) == post.state(b));
        }
    }

    proof fn lemma_locked_step(pre: &Module, post: &Module, id: BountyId)
        requires
            pre.wf(),
            post.ids@ == pre.ids@,
            pre.states@.contains_key(id),
            post.states@.dom() == pre.states@.dom(),
            forall|b: BountyId| b != id ==> #[trigger] post.state(b) == pre.state(b),
            post.bounties@ == pre.bounties@,
            forall|c: CurrencyId, a: AccountId|
                #[trigger] post.escrow.reserved(c, a) + contribution(pre.states@, pre.bounties@, id, c, a)
                    >= pre.escrow.reserved(c, a) + contribution(post.states@, post.bounties@, id, c, a),
        ensures
            post.ids@.no_duplicates(),
            forall|b: BountyId| post.states@.contains_key(b) <==> post.ids@.contains(b),
            forall|c: CurrencyId, a: AccountId| #[trigger] post.escrow.reserved(c, a) >= post.locked(c, a),
    {
        assert forall|b: BountyId| post.states@.contains_key(b) <==> post.ids@.contains(b) by {
            assert(pre.states@.contains_key(b) <==> pre.ids@.contains(b));
        }
        assert(pre.ids@.contains(id));
        assert forall|c: CurrencyId, a: AccountId| #[trigger] post.escrow.reserved(c, a) >= post.locked(c, a) by {
            let ids = pre.ids@;
            assert forall|i: int| 0 <= i < ids.len() && ids[i] != id implies contribution(
                pre.states@,
                pre.bounties@,
                #[trigger] ids[i],
                c,
                a,
            ) == contribution(post.states@, post.bounties@, ids[i], c, a) by {
                assert(post.state(ids[i]) == pre.state(ids[i]));
            }
            lemma_locked_change(pre.states@, pre.bounties@, post.states@, post.bounties@, ids, id, c, a);
            assert(pre.escrow.reserved(c, a) >= pre.locked(c, a));
        }
    }

    /// The reserve of a funder covers the payment of each of its bounties
    /// that has not ended.
    pub proof fn lemma_payment_reserved(&self, id: BountyId)
        requires
            self.wf(),
            self.state(id) is Some,
            holds_payment(self.state(id).unwrap()),
        ensures
            self.bounty(id) is Some,
            self.ledger().reserved(self.bounty(id).unwrap().currency(), self.bounty(id).unwrap().owner())
                >= self.bounty(id).unwrap().payment(),
    {
        let b = self.bounties@[id];
        assert(self.ids@.contains(id));
        lemma_locked_covers(self.states@, self.bounties@, self.ids@, id, b.currency(), b.owner());
        assert(self.escrow.reserved(b.currency(), b.owner()) >= self.locked(b.currency(), b.owner()));
    }

    proof fn lemma_wf_update(pre: &Module, post: &Module, id: BountyId)
        requires
            pre.wf(),
            post.bounties@.dom() == post.states@.dom(),
            post.tracker.wf(),
            post.escrow.wf(),
            post.mining.wf(),
            post.council_fee == pre.council_fee,
            post.max_holding_bounties == pre.max_holding_bounties,
            forall|h: AccountId| #[trigger] post.tracker.count(h) <= post.max_holding_bounties,
            forall|b: BountyId| b != id ==> #[trigger] post.state(b) == pre.state(b),
            pre.tracker.same_except(&post.tracker, id),
            post.state(id) == Some(BountyState::Assigned) || post.state(id) == Some(
                BountyState::Submitted,
            ) ==> post.tracker.assignee(id) is Some,
            forall|h: AccountId| #[trigger]
                post.tracker.hunting(id, h) ==> post.state(id) == Some(BountyState::Accepted)
                    || post.state(id) == Some(BountyState::Assigned) || post.state(id) == Some(
                    BountyState::Submitted,
                ),
            post.ids@.no_duplicates(),
            forall|b: BountyId| post.states@.contains_key(b) <==> post.ids@.contains(b),
            forall|c: CurrencyId, a: AccountId| #[trigger] post.escrow.reserved(c, a) >= post.locked(c, a),
            post.tracker.assignee(id) is Some ==> post.state(id) == Some(BountyState::Assigned)
                || post.state(id) == Some(BountyState::Submitted),
        ensures
            post.wf(),
    {
        assert forall|b: BountyId| #[trigger]
            post.tracker.assignee(b) is Some implies post.state(b) == Some(BountyState::Assigned)
                || post.state(b) == Some(BountyState::Submitted) by {
            if b != id {
                assert(pre.state(b) == post.state(b));
                assert(pre.tracker.assignee(b) == post.tracker.assignee(b));
            }
        }
        assert forall|b: BountyId|
            #[trigger] post.state(b) == Some(BountyState::Assigned) || post.state(b) == Some(
                BountyState::Submitted,
            ) implies post.tracker.assignee(b) is Some by {
            if b != id {
                assert(pre.state(b) == post.state(b));
                assert(pre.tracker.assignee(b) == post.tracker.assignee(b));
            }
        }
        assert forall|b: BountyId, h: AccountId| #[trigger]
            post.tracker.hunting(b, h) implies post.state(b) == Some(BountyState::Accepted) || post.state(
                b,
            ) == Some(BountyState::Assigned) || post.state(b) == Some(BountyState::Submitted) by {
            if b != id {
                assert(pre.tracker.hunting(b, h));
                assert(pre.state(b) == post.state(b));
            }
        }
    }
}

impl Module {
    /// An empty registry with empty ledgers.
    pub fn new(
        max_holding_bounties: u32,
        outdated_height: BlockNumber,
        council_fee: u8,
        council_account: AccountId,
        blocks_per_session: u64,
    ) -> (r: Module)
        requires
            council_fee <= 100,
            blocks_per_session > 0,
        ensures
            r.wf(),
            r.max_holding() == max_holding_bounties,
            r.outdated_after() == outdated_height,
            r.fee_percent() == council_fee,
            r.council() == council_account,
            r.powers().length() == blocks_per_session,
            forall|c: CurrencyId| #[trigger] r.ratio(c) == 0,
            forall|b: BountyId| #[trigger] r.state(b) is None && r.bounty(b) is None,
            forall|c: CurrencyId, a: AccountId| #[trigger] r.ledger().free(c, a) == 0 && r.ledger().reserved(c, a) == 0,
            forall|a: AccountId| #[trigger] r.scores().score(a) == 0,
            forall|b: BountyId, h: AccountId| !#[trigger] r.hunters().hunting(b, h),
            forall|h: AccountId| #[trigger] r.hunters().count(h) == 0,
            forall|b: BountyId| #[trigger] r.hunters().assignee(b) is None,
            r.log() == Seq::<Event>::empty(),
            forall|c: CurrencyId| #[trigger] r.ledger().issuance(c) == 0,
            forall|s: SessionIndex, a: AccountId| #[trigger] r.powers().power(s, a) == 0,
            forall|s: SessionIndex| #[trigger] r.powers().total(s) == 0,
            forall|s: SessionIndex| #[trigger] r.powers().pool(s) == 0 && !r.powers().pool_fixed(s),
            forall|b: BountyId| #[trigger] r.resolver(b) is None,
    {
        let tracker = HunterTracker::new();
        let escrow = Escrow::new();
        let reputation = reputation::Module::new();
        let mining = mining::Module::new(blocks_per_session);
        Module {
            bounties: BTreeMap::new(),
            states: BTreeMap::new(),
            approved_height: BTreeMap::new(),
            assigned_height: BTreeMap::new(),
            tracker,
            currency_ratios: HashMap::new(),
            max_holding_bounties,
            outdated_height,
            council_fee,
            council_account,
            escrow,
            reputation,
            mining,
            events: Vec::new(),
            resolvers: BTreeMap::new(),
            ids: Ghost(Seq::empty()),
        }
    }

    /// Sets the mining power that one unit of `currency` is worth.
    pub fn set_currency_ratio(&mut self, currency: CurrencyId, ratio: u128)
        requires
            old(self).wf(),
        ensures
            final(self).wf(),
            final(self).ratio(currency) == ratio,
            forall|c: CurrencyId| c != currency ==> #[trigger] final(self).ratio(c) == old(self).ratio(c),
            forall|b: BountyId| #[trigger] final(self).state(b) == old(self).state(b) && final(self).bounty(b) == old(self).bounty(b),
            final(self).hunters() == old(self).hunters(),
            final(self).ledger() == old(self).ledger(),
            final(self).scores() == old(self).scores(),
            final(self).powers() == old(self).powers(),
            final(self).max_holding() == old(self).max_holding(),
            final(self).outdated_after() == old(self).outdated_after(),
            final(self).fee_percent() == old(self).fee_percent(),
            final(self).council() == old(self).council(),
    {
        self.currency_ratios.insert(currency.index(), ratio);
        proof {
            Self::lemma_wf_frame(old(self), self);
            assert forall|c: CurrencyId| c != currency implies #[trigger] self.ratio(c) == old(self).ratio(c) by {
                assert(currency_index(c) as u8 != currency_index(currency) as u8);
            }
        }
    }

    /// The mining power that one unit of `currency` is worth.
    pub fn currency_ratios(&self, currency: CurrencyId) -> (r: u128)
        ensures
            r == self.ratio(currency),
    {
        match self.currency_ratios.get(&currency.index()) {
            Some(v) => *v,
            None => 0,
        }
    }

    /// Credits `amount` of `currency` to the free balance of `who`.
    pub fn deposit(&mut self, currency: CurrencyId, who: AccountId, amount: Balance) -> (r: Result<(), Error>)
        requires
            old(self).wf(),
        ensures
            final(self).wf(),
            r is Err <==> (old(self).ledger().free(currency, who) + old(self).ledger().reserved(currency, who) + amount > u128::MAX
                || old(self).ledger().issuance(currency) + amount > u128::MAX),
            r is Err ==> r == Err::<(), Error>(Error::Overflow) && *final(self) == *old(self),
            r is Ok ==> {
                &&& final(self).ledger().free(currency, who) == old(self).ledger().free(currency, who) + amount
                &&& final(self).ledger().reserved(currency, who) == old(self).ledger().reserved(currency, who)
                &&& final(self).ledger().issuance(currency) == old(self).ledger().issuance(currency) + amount
                &&& old(self).ledger().same_except(&final(self).ledger(), currency, who)
                &&& final(self).hunters() == old(self).hunters()
                &&& final(self).scores() == old(self).scores()
                &&& final(self).powers() == old(self).powers()
                &&& forall|b: BountyId| #[trigger] final(self).state(b) == old(self).state(b)
                    && final(self).bounty(b) == old(self).bounty(b)
                &&& forall|b: BountyId| #[trigger] final(self).resolver(b) == old(self).resolver(b)
                &&& final(self).log() == old(self).log()
                &&& old(self).same_config(final(self))
            },
    {
        if self.escrow.free_balance(currency, who) > u128::MAX - amount
            || self.escrow.free_balance(currency, who) + amount > u128::MAX - self.escrow.reserved_balance(currency, who)
            || self.escrow.total_issuance(currency) > u128::MAX - amount {
            return Err(Error::Overflow);
        }
        let r = self.escrow.deposit(currency, who, amount);
        proof {
            Self::lemma_wf_frame(old(self), self);
        }
        match r {
            Ok(()) => Ok(()),
            Err(_) => Err(Error::Overflow),
        }
    }

    /// The events of the actions so far, oldest first.
    pub fn events(&self) -> (r: &Vec<Event>)
        ensures
            r@ == self.log(),
    {
        &self.events
    }

    /// The escrow ledger.
    pub fn escrow(&self) -> (r: &Escrow)
        ensures
            *r == self.ledger(),
    {
        &self.escrow
    }

    /// The reputation ledger.
    pub fn reputation(&self) -> (r: &reputation::Module)
        ensures
            *r == self.scores(),
    {
        &self.reputation
    }

    /// The mining-power ledger.
    pub fn mining(&self) -> (r: &mining::Module)
        ensures
            *r == self.powers(),
    {
        &self.mining
    }

    /// The record of bounty `id`.
    pub fn get_bounty(&self, id: &BountyId) -> (r: Result<Bounty, Error>)
        ensures
            match self.bounty(*id) {
                Some(b) => r == Ok::<Bounty, Error>(b),
                None => r == Err::<Bounty, Error>(Error::NotExisted),
            },
    {
        match self.bounties.get(id) {
            Some(b) => Ok(*b),
            None => Err(Error::NotExisted),
        }
    }

    /// The state of bounty `id`, if it exists.
    pub fn bounty_state_of(&self, id: BountyId) -> (r: Option<BountyState>)
        ensures
            r == self.state(id),
    {
        match self.states.get(&id) {
            Some(s) => Some(*s),
            None => None,
        }
    }

    /// The account that funds `bounty`.
    pub fn get_funder(bounty: &Bounty) -> (r: AccountId)
        ensures
            r == bounty.owner(),
    {
        match bounty {
            Bounty::V1(m) => m.owner,
        }
    }

    /// The currency `bounty` pays in.
    pub fn get_currency_id(bounty: &Bounty) -> (r: CurrencyId)
        ensures
            r == bounty.currency(),
    {
        match bounty {
            Bounty::V1(m) => m.currency_id,
        }
    }

    /// The currency and the amount `bounty` pays.
    pub fn parse_payment(bounty: &Bounty) -> (r: (CurrencyId, Balance))
        ensures
            r == (bounty.currency(), bounty.payment()),
    {
        match bounty {
            Bounty::V1(m) => (m.currency_id, m.payment),
        }
    }

    /// Whether `caller` funds `bounty`.
    pub fn check_funder(caller: &AccountId, bounty: &Bounty) -> (r: Result<(), Error>)
        ensures
            r is Ok <==> bounty.owner() == *caller,
            r is Err ==> r == Err::<(), Error>(Error::NotFunder),
    {
        if Self::get_funder(bounty) == *caller {
            Ok(())
        } else {
            Err(Error::NotFunder)
        }
    }

    /// Whether bounty `id` may still be closed: it exists and has not reached
    /// a terminal state.
    pub fn check_bounty_can_be_closed(&self, id: BountyId) -> (r: Result<(), Error>)
        ensures
            match self.state(id) {
                None => r == Err::<(), Error>(Error::NotExisted),
                Some(s) => if is_terminal(s) {
                    r == Err::<(), Error>(Error::InvalidState)
                } else {
                    r is Ok
                },
            },
    {
        match self.bounty_state_of(id) {
            None => Err(Error::NotExisted),
            Some(s) => match s {
                BountyState::Rejected | BountyState::Closed | BountyState::Outdated
                | BountyState::Resolved => Err(Error::InvalidState),
                _ => Ok(()),
            },
        }
    }

    /// The hunter bounty `id` is assigned to, if any.
    pub fn hunted_for_bounty(&self, id: BountyId) -> (r: Option<AccountId>)
        ensures
            r == self.hunters().assignee(id),
    {
        self.tracker.assignee_of(id)
    }

    /// Whether `hunter` hunts bounty `id`.
    pub fn hunting_for_bounty(&self, id: BountyId, hunter: AccountId) -> (r: bool)
        ensures
            r == self.hunters().hunting(id, hunter),
    {
        self.tracker.is_hunting(id, hunter)
    }

    /// What `hunter` holds of bounty `id`, if anything.
    pub fn hunter_bounties(&self, hunter: AccountId, id: BountyId) -> (r: Option<HunterBountyState>)
        ensures
            r == self.hunters().holding(hunter, id),
    {
        self.tracker.holding_of(hunter, id)
    }

    /// How many bounties `hunter` holds.
    pub fn hunter_bounty_count(&self, hunter: AccountId) -> (r: usize)
        ensures
            r == self.hunters().count(hunter),
    {
        self.tracker.count_of(hunter)
    }

    /// The block at which bounty `id` last became `Accepted`.
    pub fn approved_height(&self, id: BountyId) -> (r: BlockNumber)
        ensures
            r == self.approved_at(id),
    {
        match self.approved_height.get(&id) {
            Some(h) => *h,
            None => 0,
        }
    }

    /// The block at which bounty `id` last became `Assigned`.
    pub fn assigned_height(&self, id: BountyId) -> (r: BlockNumber)
        ensures
            r == self.assigned_at(id),
    {
        match self.assigned_height.get(&id) {
            Some(h) => *h,
            None => 0,
        }
    }

    /// How many bounties a hunter may hold at once.
    pub fn max_holding_bounties(&self) -> (r: u32)
        ensures
            r == self.max_holding(),
    {
        self.max_holding_bounties
    }

    /// How many blocks an accepted or assigned bounty stays valid.
    pub fn outdated_height(&self) -> (r: BlockNumber)
        ensures
            r == self.outdated_after(),
    {
        self.outdated_height
    }
}

impl Module {
    /// What `create_bounty_impl` answers.
    pub open spec fn create_result(&self, creator: AccountId, nonce: u32, bounty: Bounty) -> Result<
        (),
        Error,
    > {
        let id = bounty_id_of(creator, nonce);
        if self.state(id) is Some || self.bounty(id) is Some {
            Err(Error::Existed)
        } else if bounty.owner() != creator {
            Err(Error::NotFunder)
        } else if bounty.payment() > self.ledger().free(bounty.currency(), creator) {
            Err(Error::CantPay)
        } else {
            Ok(())
        }
    }

    /// What `examine_bounty_impl` answers.
    pub open spec fn examine_result(&self, id: BountyId) -> Result<(), Error> {
        match self.state(id) {
            None => Err(Error::NotExisted),
            Some(s) => if s != BountyState::Applying {
                Err(Error::InvalidState)
            } else {
                Ok(())
            },
        }
    }

    /// `post` is `pre` with up to `amount` of `a`'s reserve in `c` released
    /// to its free balance.
    pub open spec fn released(pre: Escrow, post: Escrow, c: CurrencyId, a: AccountId, amount: nat) -> bool {
        let moved = vstd::math::min(amount as int, pre.reserved(c, a) as int);
        &&& post.reserved(c, a) == pre.reserved(c, a) - moved
        &&& post.free(c, a) == pre.free(c, a) + moved
        &&& pre.same_except(&post, c, a)
        &&& forall|c2: CurrencyId| #[trigger] post.issuance(c2) == pre.issuance(c2)
    }

    fn change_state(&mut self, id: BountyId, state: BountyState, now: BlockNumber)
        ensures
            final(self).state(id) == Some(state),
            forall|b: BountyId| b != id ==> #[trigger] final(self).state(b) == old(self).state(b),
            final(self).approved_at(id) == if state == BountyState::Accepted {
                now as nat
            } else {
                old(self).approved_at(id)
            },
            final(self).assigned_at(id) == if state == BountyState::Assigned {
                now as nat
            } else {
                old(self).assigned_at(id)
            },
            forall|b: BountyId| b != id ==> #[trigger] final(self).approved_at(b) == old(self).approved_at(b),
            forall|b: BountyId| b != id ==> #[trigger] final(self).assigned_at(b) == old(self).assigned_at(b),
            final(self).states@.dom() == old(self).states@.dom().insert(id),
            final(self).bounties == old(self).bounties,
            final(self).tracker == old(self).tracker,
            final(self).escrow == old(self).escrow,
            final(self).reputation == old(self).reputation,
            final(self).mining == old(self).mining,
            final(self).currency_ratios == old(self).currency_ratios,
            final(self).max_holding_bounties == old(self).max_holding_bounties,
            final(self).outdated_height == old(self).outdated_height,
            final(self).council_fee == old(self).council_fee,
            final(self).council_account == old(self).council_account,
            final(self).ids == old(self).ids,
            final(self).events == old(self).events,
            final(self).resolvers == old(self).resolvers,
    {
        match state {
            BountyState::Accepted => {
                self.approved_height.insert(id, now);
            },
            BountyState::Assigned => {
                self.assigned_height.insert(id, now);
            },
            _ => {},
        }
        self.states.insert(id, state);
    }

    /// Registers `bounty`, created by `creator` at account nonce `nonce`, and
    /// reserves its payment from the creator's free balance. The bounty
    /// starts in `Applying`.
    pub fn create_bounty_impl(&mut self, creator: AccountId, nonce: u32, bounty: Bounty) -> (r: Result<
        (),
        Error,
    >)
        requires
            old(self).wf(),
        ensures
            final(self).wf(),
            r == old(self).create_result(creator, nonce, bounty),
            r is Err ==> *final(self) == *old(self),
            r is Ok ==> {
                let id = bounty_id_of(creator, nonce);
                let c = bounty.currency();
                &&& final(self).state(id) == Some(BountyState::Applying)
                &&& final(self).bounty(id) == Some(bounty)
                &&& old(self).same_other_bounties(final(self), id)
                &&& final(self).hunters() == old(self).hunters()
                &&& final(self).ledger().free(c, creator) == old(self).ledger().free(c, creator) - bounty.payment()
                &&& final(self).ledger().reserved(c, creator) == old(self).ledger().reserved(c, creator) + bounty.payment()
                &&& old(self).ledger().same_except(&final(self).ledger(), c, creator)
                &&& final(self).scores() == old(self).scores()
                &&& final(self).powers() == old(self).powers()
                &&& old(self).same_config(final(self))
                &&& final(self).log() == old(self).log().push(Event::ApplyBounty(creator, id))
            },
    {
        let id = bounty_id_for(creator, nonce);
        if self.states.contains_key(&id) || self.bounties.contains_key(&id) {
            return Err(Error::Existed);
        }
        match Self::check_funder(&creator, &bounty) {
            Ok(()) => {},
            Err(e) => {
                return Err(e);
            },
        }
        let (c, amount) = Self::parse_payment(&bounty);
        if !self.escrow.can_reserve(c, creator, amount) {
            return Err(Error::CantPay);
        }
        let _ = self.escrow.reserve(c, creator, amount);
        self.bounties.insert(id, bounty);
        self.ids = Ghost(self.ids@.push(id));
        self.events.push(Event::ApplyBounty(creator, id));
        self.change_state(id, BountyState::Applying, 0);
        proof {
            assert(!old(self).states@.contains_key(id));
            assert(!old(self).ids@.contains(id));
            assert forall|h: AccountId| !#[trigger] self.tracker.hunting(id, h) by {
                assert(old(self).tracker.hunting(id, h) ==> old(self).state(id) is Some);
            }
            assert forall|b: BountyId| b != id implies #[trigger] self.bounty(b) == old(self).bounty(b) by {}
            assert forall|b: BountyId| b != id implies #[trigger] self.resolver(b) == old(self).resolver(b) by {}
            let ids0 = old(self).ids@;
            assert(self.ids@.drop_last() =~= ids0);
            assert(self.ids@.no_duplicates()) by {
                assert forall|i: int, j: int| 0 <= i < self.ids@.len() && 0 <= j < self.ids@.len() && i != j implies self.ids@[i] != self.ids@[j] by {
                    if i < ids0.len() && j < ids0.len() {
                        assert(self.ids@[i] == ids0[i] && self.ids@[j] == ids0[j]);
                    } else if i < ids0.len() {
                        assert(self.ids@[i] == ids0[i]);
                    } else if j < ids0.len() {
                        assert(self.ids@[j] == ids0[j]);
                    }
                }
            }
            assert forall|b: BountyId| self.states@.contains_key(b) <==> self.ids@.contains(b) by {
                assert(old(self).states@.contains_key(b) <==> ids0.contains(b));
                if ids0.contains(b) {
                    let k = choose|k: int| 0 <= k < ids0.len() && ids0[k] == b;
                    assert(self.ids@[k] == b);
                }
                if self.ids@.contains(b) && b != id {
                    let k = choose|k: int| 0 <= k < self.ids@.len() && self.ids@[k] == b;
                    assert(k < ids0.len());
                    assert(ids0[k] == b);
                }
                assert(self.ids@[ids0.len() as int] == id);
            }
            assert forall|c2: CurrencyId, a: AccountId| #[trigger] self.escrow.reserved(c2, a) >= self.locked(c2, a) by {
                assert forall|i: int| 0 <= i < ids0.len() implies contribution(
                    old(self).states@,
                    old(self).bounties@,
                    #[trigger] ids0[i],
                    c2,
                    a,
                ) == contribution(self.states@, self.bounties@, ids0[i], c2, a) by {
                    assert(ids0.contains(ids0[i]));
                    assert(ids0[i] != id);
                    assert(self.state(ids0[i]) == old(self).state(ids0[i]));
                    assert(self.bounties@[ids0[i]] == old(self).bounties@[ids0[i]]);
                }
                lemma_locked_same(old(self).states@, old(self).bounties@, self.states@, self.bounties@, ids0, c2, a);
                assert(old(self).escrow.reserved(c2, a) >= old(self).locked(c2, a));
                assert(self.ids@.last() == id);
                assert(self.ids@.drop_last() == ids0);
                if c2 == c && a == creator {
                    assert(self.escrow.reserved(c2, a) == old(self).escrow.reserved(c2, a) + amount);
                    assert(self.states@[id] == BountyState::Applying);
                    assert(self.bounties@[id] == bounty);
                    assert(contribution(self.states@, self.bounties@, id, c2, a) == amount);
                } else {
                    assert(self.escrow.reserved(c2, a) == old(self).escrow.reserved(c2, a));
                    assert(contribution(self.states@, self.bounties@, id, c2, a) == 0);
                }
                assert(self.locked(c2, a) == locked_in(self.states@, self.bounties@, ids0, c2, a) + contribution(
                    self.states@,
                    self.bounties@,
                    id,
                    c2,
                    a,
                ));
            }
            Self::lemma_wf_update(old(self), self, id);
            assert forall|c2: CurrencyId| #[trigger] self.ratio(c2) == old(self).ratio(c2) by {}
        }
        Ok(())
    }

    /// The council's verdict on an applying bounty: it becomes `Accepted` (and
    /// its approval height is `now`), or `Rejected`, which releases its
    /// payment back to the funder.
    pub fn examine_bounty_impl(&mut self, id: BountyId, accepted: bool, now: BlockNumber) -> (r: Result<
        (),
        Error,
    >)
        requires
            old(self).wf(),
        ensures
            final(self).wf(),
            r == old(self).examine_result(id),
            r is Err ==> *final(self) == *old(self),
            r is Ok ==> {
                let b = old(self).bounty(id).unwrap();
                &&& final(self).bounty(id) == old(self).bounty(id)
                &&& old(self).same_other_bounties(final(self), id)
                &&& final(self).hunters() == old(self).hunters()
                &&& final(self).scores() == old(self).scores()
                &&& final(self).powers() == old(self).powers()
                &&& old(self).same_config(final(self))
                &&& if accepted {
                    &&& final(self).state(id) == Some(BountyState::Accepted)
                    &&& final(self).approved_at(id) == now
                    &&& final(self).ledger() == old(self).ledger()
                } else {
                    &&& final(self).state(id) == Some(BountyState::Rejected)
                    &&& Self::released(old(self).ledger(), final(self).ledger(), b.currency(), b.owner(), b.payment() as nat)
                    &&& old(self).ledger().reserved(b.currency(), b.owner()) >= b.payment()
                }
                &&& final(self).log() == old(self).log().push(if accepted { Event::Accept(id) } else { Event::Reject(id) })
            },
    {
        match self.bounty_state_of(id) {
            None => {
                return Err(Error::NotExisted);
            },
            Some(s) => {
                if s != BountyState::Applying {
                    return Err(Error::InvalidState);
                }
            },
        }
        proof {
            assert(old(self).states@.contains_key(id));
            assert(old(self).bounties@.contains_key(id));
        }
        let bounty = match self.bounties.get(&id) {
            Some(b) => *b,
            None => {
                return Err(Error::NotExisted);
            },
        };
        self.events.push(if accepted { Event::Accept(id) } else { Event::Reject(id) });
        if accepted {
            self.change_state(id, BountyState::Accepted, now);
        } else {
            let funder = Self::get_funder(&bounty);
            let (c, amount) = Self::parse_payment(&bounty);
            let _ = self.escrow.unreserve(c, funder, amount);
            self.change_state(id, BountyState::Rejected, now);
        }
        proof {
            assert forall|h: AccountId| !#[trigger] self.tracker.hunting(id, h) by {
                assert(old(self).tracker.hunting(id, h) ==> old(self).state(id) != Some(BountyState::Applying));
            }
            assert(self.states@.dom() == old(self).states@.dom());
            old(self).lemma_payment_reserved(id);
            Self::lemma_locked_step(old(self), self, id);
            Self::lemma_wf_update(old(self), self, id);
            assert forall|c2: CurrencyId| #[trigger] self.ratio(c2) == old(self).ratio(c2) by {}
            assert forall|b: BountyId| b != id implies #[trigger] self.bounty(b) == old(self).bounty(b) by {}
            assert forall|b: BountyId| b != id implies #[trigger] self.resolver(b) == old(self).resolver(b) by {}
        }
        Ok(())
    }
}

impl Module {
    /// Whether hunters may register for a bounty in state `s`.
    pub open spec fn is_open(s: BountyState) -> bool {
        s == BountyState::Accepted || s == BountyState::Assigned || s == BountyState::Submitted
    }

    /// What `hunt_bounty_impl` answers.
    pub open spec fn hunt_result(&self, id: BountyId, hunter: AccountId) -> Result<(), Error> {
        match self.state(id) {
            None => Err(Error::NotExisted),
            Some(s) => if !Self::is_open(s) {
                Err(Error::InvalidState)
            } else if self.hunters().count(hunter) >= self.max_holding() {
                Err(Error::TooManyHuntedBounties)
            } else if self.hunters().hunting(id, hunter) {
                Err(Error::AlreadyHunted)
            } else {
                Ok(())
            },
        }
    }

    /// What `cancel_bounty_hunting_impl` answers.
    pub open spec fn cancel_result(&self, id: BountyId, hunter: AccountId) -> Result<(), Error> {
        if !self.hunters().hunting(id, hunter) {
            Err(Error::NotHunter)
        } else if self.hunters().assignee(id) == Some(hunter) {
            Err(Error::AlreadyAssigned)
        } else {
            Ok(())
        }
    }

    /// What `assign_bounty_impl` answers.
    pub open spec fn assign_result(&self, id: BountyId, funder: AccountId, hunter: AccountId) -> Result<
        (),
        Error,
    > {
        match self.bounty(id) {
            None => Err(Error::NotExisted),
            Some(b) => if b.owner() != funder {
                Err(Error::NotFunder)
            } else if self.state(id) != Some(BountyState::Accepted) && self.state(id) != Some(
                BountyState::Assigned,
            ) {
                Err(Error::InvalidState)
            } else if !self.hunters().hunting(id, hunter) {
                Err(Error::NotHunter)
            } else if self.hunters().assignee(id) == Some(hunter) {
                Err(Error::AlreadyAssigned)
            } else {
                Ok(())
            },
        }
    }

    /// What `submit_bounty_impl` answers.
    pub open spec fn submit_result(&self, id: BountyId, hunter: AccountId) -> Result<(), Error> {
        match self.state(id) {
            None => Err(Error::NotExisted),
            Some(s) => if s != BountyState::Assigned {
                Err(Error::InvalidState)
            } else if self.hunters().assignee(id) != Some(hunter) {
                Err(Error::NotAssignee)
            } else {
                Ok(())
            },
        }
    }

    /// What `resign_from_bounty_impl` answers.
    pub open spec fn resign_result(&self, id: BountyId, hunter: AccountId) -> Result<(), Error> {
        match self.state(id) {
            None => Err(Error::NotExisted),
            Some(s) => if s != BountyState::Assigned {
                Err(Error::InvalidState)
            } else if self.hunters().assignee(id) != Some(hunter) {
                Err(Error::NotHunter)
            } else {
                Ok(())
            },
        }
    }

    /// What `close_bounty_impl` answers.
    pub open spec fn close_result(&self, funder: AccountId, id: BountyId) -> Result<(), Error> {
        match self.bounty(id) {
            None => Err(Error::NotExisted),
            Some(b) => if b.owner() != funder {
                Err(Error::NotFunder)
            } else if is_terminal(self.state(id).unwrap()) {
                Err(Error::InvalidState)
            } else {
                Ok(())
            },
        }
    }

    /// The block from which a bounty in state `s` counts its validity.
    pub open spec fn valid_since(&self, id: BountyId, s: BountyState) -> nat {
        if s == BountyState::Assigned {
            self.assigned_at(id)
        } else {
            self.approved_at(id)
        }
    }

    /// What `force_close_bounty_impl` answers.
    pub open spec fn force_close_result(&self, id: BountyId, reason: CloseReason, now: BlockNumber) -> Result<
        (),
        Error,
    > {
        match self.state(id) {
            None => Err(Error::NotExisted),
            Some(s) => if reason != CloseReason::Outdated {
                Err(Error::InvalidState)
            } else if s != BountyState::Accepted && s != BountyState::Assigned {
                Err(Error::InvalidState)
            } else if now as nat <= self.valid_since(id, s) + self.outdated_after() {
                Err(Error::ValidBounty)
            } else {
                Ok(())
            },
        }
    }

    /// Every hunter association of bounty `id` is gone in `post`, which is
    /// `pre` in all other respects of the tracker.
    pub open spec fn purged(pre: HunterTracker, post: HunterTracker, id: BountyId) -> bool {
        &&& forall|h: AccountId| !#[trigger] post.hunting(id, h)
        &&& forall|h: AccountId| #[trigger] post.holding(h, id) is None
        &&& forall|h: AccountId| #[trigger] post.count(h) <= pre.count(h)
        &&& pre.same_except(&post, id)
    }

    fn remove_hunters_for_bounty(&mut self, id: BountyId)
        requires
            old(self).tracker.wf(),
        ensures
            final(self).tracker.wf(),
            Self::purged(old(self).tracker, final(self).tracker, id),
            final(self).tracker.assignee(id) is None,
            final(self).bounties == old(self).bounties,
            final(self).states == old(self).states,
            final(self).approved_height == old(self).approved_height,
            final(self).assigned_height == old(self).assigned_height,
            final(self).escrow == old(self).escrow,
            final(self).reputation == old(self).reputation,
            final(self).mining == old(self).mining,
            final(self).currency_ratios == old(self).currency_ratios,
            final(self).max_holding_bounties == old(self).max_holding_bounties,
            final(self).outdated_height == old(self).outdated_height,
            final(self).council_fee == old(self).council_fee,
            final(self).council_account == old(self).council_account,
            final(self).ids == old(self).ids,
            final(self).events == old(self).events,
            final(self).resolvers == old(self).resolvers,
    {
        self.tracker.clear_hunters(id);
    }

    /// Registers `hunter` as interested in an open bounty.
    pub fn hunt_bounty_impl(&mut self, id: BountyId, hunter: AccountId) -> (r: Result<(), Error>)
        requires
            old(self).wf(),
        ensures
            final(self).wf(),
            r == old(self).hunt_result(id, hunter),
            r is Err ==> *final(self) == *old(self),
            r is Ok ==> {
                &&& final(self).hunters().hunting(id, hunter)
                &&& final(self).hunters().holding(hunter, id) == Some(HunterBountyState::Hunting)
                &&& final(self).hunters().count(hunter) == old(self).hunters().count(hunter) + 1
                &&& forall|h: AccountId| h != hunter ==> #[trigger] final(self).hunters().hunting(id, h) == old(self).hunters().hunting(id, h)
                &&& forall|h: AccountId| h != hunter ==> #[trigger] final(self).hunters().holding(h, id) == old(self).hunters().holding(h, id)
                &&& forall|h: AccountId| h != hunter ==> #[trigger] final(self).hunters().count(h) == old(self).hunters().count(h)
                &&& final(self).hunters().assignee(id) == old(self).hunters().assignee(id)
                &&& final(self).state(id) == old(self).state(id)
                &&& final(self).bounty(id) == old(self).bounty(id)
                &&& old(self).same_other_bounties(final(self), id)
                &&& final(self).ledger() == old(self).ledger()
                &&& final(self).scores() == old(self).scores()
                &&& final(self).powers() == old(self).powers()
                &&& old(self).same_config(final(self))
                &&& final(self).log() == old(self).log().push(Event::HuntBounty(id, hunter))
            },
    {
        match self.bounty_state_of(id) {
            None => {
                return Err(Error::NotExisted);
            },
            Some(s) => {
                if s != BountyState::Accepted && s != BountyState::Assigned && s != BountyState::Submitted {
                    return Err(Error::InvalidState);
                }
            },
        }
        let count = self.tracker.count_of(hunter);
        if count >= self.max_holding_bounties as usize {
            return Err(Error::TooManyHuntedBounties);
        }
        if self.tracker.is_hunting(id, hunter) {
            return Err(Error::AlreadyHunted);
        }
        self.tracker.add_hunter(id, hunter);
        self.events.push(Event::HuntBounty(id, hunter));
        proof {
            Self::lemma_locked_step(old(self), self, id);
            Self::lemma_wf_update(old(self), self, id);
            assert forall|c2: CurrencyId| #[trigger] self.ratio(c2) == old(self).ratio(c2) by {}
        }
        Ok(())
    }

    /// Withdraws `hunter` from the hunters of bounty `id`. The assignee
    /// cannot withdraw: it resigns instead.
    pub fn cancel_bounty_hunting_impl(&mut self, id: BountyId, hunter: AccountId) -> (r: Result<(), Error>)
        requires
            old(self).wf(),
        ensures
            final(self).wf(),
            r == old(self).cancel_result(id, hunter),
            r is Err ==> *final(self) == *old(self),
            r is Ok ==> {
                &&& !final(self).hunters().hunting(id, hunter)
                &&& final(self).hunters().holding(hunter, id) is None
                &&& final(self).hunters().count(hunter) == old(self).hunters().count(hunter) - 1
                &&& forall|h: AccountId| h != hunter ==> #[trigger] final(self).hunters().hunting(id, h) == old(self).hunters().hunting(id, h)
                &&& forall|h: AccountId| h != hunter ==> #[trigger] final(self).hunters().holding(h, id) == old(self).hunters().holding(h, id)
                &&& forall|h: AccountId| h != hunter ==> #[trigger] final(self).hunters().count(h) == old(self).hunters().count(h)
                &&& final(self).hunters().assignee(id) == old(self).hunters().assignee(id)
                &&& final(self).state(id) == old(self).state(id)
                &&& final(self).bounty(id) == old(self).bounty(id)
                &&& old(self).same_other_bounties(final(self), id)
                &&& final(self).ledger() == old(self).ledger()
                &&& final(self).scores() == old(self).scores()
                &&& final(self).powers() == old(self).powers()
                &&& old(self).same_config(final(self))
                &&& final(self).log() == old(self).log().push(Event::CancelHuntBounty(id, hunter))
            },
    {
        if !self.tracker.is_hunting(id, hunter) {
            return Err(Error::NotHunter);
        }
        if self.tracker.assignee_of(id) == Some(hunter) {
            return Err(Error::AlreadyAssigned);
        }
        self.tracker.remove_hunter(id, hunter);
        self.events.push(Event::CancelHuntBounty(id, hunter));
        proof {
            assert forall|h: AccountId| #[trigger] self.tracker.count(h) <= self.max_holding_bounties by {
                assert(old(self).tracker.count(h) <= old(self).max_holding_bounties);
            }
            assert forall|h: AccountId| #[trigger] self.tracker.hunting(id, h) implies Self::is_open(self.state(id).unwrap()) && self.state(id) is Some by {
                assert(old(self).tracker.hunting(id, h));
            }
            Self::lemma_locked_step(old(self), self, id);
            Self::lemma_wf_update(old(self), self, id);
            assert forall|c2: CurrencyId| #[trigger] self.ratio(c2) == old(self).ratio(c2) by {}
        }
        Ok(())
    }
}

impl Module {
    /// The funder gives bounty `id` to `hunter`, one of its hunters. The
    /// former assignee goes back to hunting.
    pub fn assign_bounty_impl(&mut self, id: BountyId, funder: AccountId, hunter: AccountId, now: BlockNumber) -> (r: Result<
        (),
        Error,
    >)
        requires
            old(self).wf(),
        ensures
            final(self).wf(),
            r == old(self).assign_result(id, funder, hunter),
            r is Err ==> *final(self) == *old(self),
            r is Ok ==> {
                &&& final(self).state(id) == Some(BountyState::Assigned)
                &&& final(self).assigned_at(id) == now
                &&& final(self).approved_at(id) == old(self).approved_at(id)
                &&& final(self).hunters().assignee(id) == Some(hunter)
                &&& final(self).hunters().holding(hunter, id) == Some(HunterBountyState::Processing)
                &&& forall|h: AccountId|
                    h != hunter ==> #[trigger] final(self).hunters().holding(h, id) == if old(self).hunters().assignee(id) == Some(h) {
                        Some(HunterBountyState::Hunting)
                    } else {
                        old(self).hunters().holding(h, id)
                    }
                &&& forall|h: AccountId| #[trigger] final(self).hunters().hunting(id, h) == old(self).hunters().hunting(id, h)
                &&& forall|h: AccountId| #[trigger] final(self).hunters().count(h) == old(self).hunters().count(h)
                &&& final(self).bounty(id) == old(self).bounty(id)
                &&& old(self).same_other_bounties(final(self), id)
                &&& final(self).ledger() == old(self).ledger()
                &&& final(self).scores() == old(self).scores()
                &&& final(self).powers() == old(self).powers()
                &&& old(self).same_config(final(self))
                &&& final(self).log() == old(self).log().push(Event::AssignBounty(id, hunter))
            },
    {
        let bounty = match self.get_bounty(&id) {
            Ok(b) => b,
            Err(e) => {
                return Err(e);
            },
        };
        match Self::check_funder(&funder, &bounty) {
            Ok(()) => {},
            Err(e) => {
                return Err(e);
            },
        }
        let state = self.bounty_state_of(id);
        if state != Some(BountyState::Accepted) && state != Some(BountyState::Assigned) {
            return Err(Error::InvalidState);
        }
        if !self.tracker.is_hunting(id, hunter) {
            return Err(Error::NotHunter);
        }
        if self.tracker.assignee_of(id) == Some(hunter) {
            return Err(Error::AlreadyAssigned);
        }
        self.tracker.assign(id, hunter);
        self.events.push(Event::AssignBounty(id, hunter));
        self.change_state(id, BountyState::Assigned, now);
        proof {
            assert(old(self).bounties@.contains_key(id));
            assert(self.states@.dom() == old(self).states@.dom());
            assert forall|h: AccountId| #[trigger] self.tracker.count(h) <= self.max_holding_bounties by {
                assert(old(self).tracker.count(h) <= old(self).max_holding_bounties);
            }
            Self::lemma_locked_step(old(self), self, id);
            Self::lemma_wf_update(old(self), self, id);
            assert forall|c2: CurrencyId| #[trigger] self.ratio(c2) == old(self).ratio(c2) by {}
            assert forall|b: BountyId| b != id implies #[trigger] self.bounty(b) == old(self).bounty(b) by {}
            assert forall|b: BountyId| b != id implies #[trigger] self.resolver(b) == old(self).resolver(b) by {}
        }
        Ok(())
    }

    /// The assignee of bounty `id` hands in its work.
    pub fn submit_bounty_impl(&mut self, id: BountyId, hunter: AccountId) -> (r: Result<(), Error>)
        requires
            old(self).wf(),
        ensures
            final(self).wf(),
            r == old(self).submit_result(id, hunter),
            r is Err ==> *final(self) == *old(self),
            r is Ok ==> {
                &&& final(self).state(id) == Some(BountyState::Submitted)
                &&& final(self).approved_at(id) == old(self).approved_at(id)
                &&& final(self).assigned_at(id) == old(self).assigned_at(id)
                &&& final(self).hunters() == old(self).hunters()
                &&& final(self).bounty(id) == old(self).bounty(id)
                &&& old(self).same_other_bounties(final(self), id)
                &&& final(self).ledger() == old(self).ledger()
                &&& final(self).scores() == old(self).scores()
                &&& final(self).powers() == old(self).powers()
                &&& old(self).same_config(final(self))
                &&& final(self).log() == old(self).log().push(Event::Submit(id))
            },
    {
        match self.bounty_state_of(id) {
            None => {
                return Err(Error::NotExisted);
            },
            Some(s) => {
                if s != BountyState::Assigned {
                    return Err(Error::InvalidState);
                }
            },
        }
        if self.tracker.assignee_of(id) != Some(hunter) {
            return Err(Error::NotAssignee);
        }
        self.events.push(Event::Submit(id));
        self.change_state(id, BountyState::Submitted, 0);
        proof {
            assert(old(self).states@.contains_key(id));
            assert(self.states@.dom() == old(self).states@.dom());
            Self::lemma_locked_step(old(self), self, id);
            Self::lemma_wf_update(old(self), self, id);
            assert forall|c2: CurrencyId| #[trigger] self.ratio(c2) == old(self).ratio(c2) by {}
            assert forall|b: BountyId| b != id implies #[trigger] self.bounty(b) == old(self).bounty(b) by {}
            assert forall|b: BountyId| b != id implies #[trigger] self.resolver(b) == old(self).resolver(b) by {}
        }
        Ok(())
    }

    /// The assignee of bounty `id` gives it up: every hunter association of
    /// the bounty goes, the resigning hunter's reputation takes the score of
    /// a failed bounty, and the bounty is `Accepted` again from `now`.
    pub fn resign_from_bounty_impl(&mut self, id: BountyId, hunter: AccountId, now: BlockNumber) -> (r: Result<(), Error>)
        requires
            old(self).wf(),
        ensures
            final(self).wf(),
            r == old(self).resign_result(id, hunter),
            r is Err ==> *final(self) == *old(self),
            r is Ok ==> {
                &&& final(self).state(id) == Some(BountyState::Accepted)
                &&& final(self).approved_at(id) == now
                &&& final(self).assigned_at(id) == old(self).assigned_at(id)
                &&& Self::purged(old(self).hunters(), final(self).hunters(), id)
                &&& final(self).hunters().assignee(id) is None
                &&& final(self).scores().score(hunter) == reputation::saturate_i128(
                    old(self).scores().score(hunter) + reputation::behavior_score(
                        Behavior::BountyResolve(BountyResolveCollaborationResult::Fail),
                    ),
                )
                &&& forall|a: AccountId| a != hunter ==> #[trigger] final(self).scores().score(a) == old(self).scores().score(a)
                &&& final(self).bounty(id) == old(self).bounty(id)
                &&& old(self).same_other_bounties(final(self), id)
                &&& final(self).ledger() == old(self).ledger()
                &&& final(self).powers() == old(self).powers()
                &&& old(self).same_config(final(self))
                &&& final(self).log() == old(self).log().push(Event::Resign(id, hunter)).push(Event::Accept(id))
            },
    {
        match self.bounty_state_of(id) {
            None => {
                return Err(Error::NotExisted);
            },
            Some(s) => {
                if s != BountyState::Assigned {
                    return Err(Error::InvalidState);
                }
            },
        }
        if self.tracker.assignee_of(id) != Some(hunter) {
            return Err(Error::NotHunter);
        }
        self.remove_hunters_for_bounty(id);
        self.reputation.add_behavior_score_by_behavior(
            &hunter,
            &Behavior::BountyResolve(BountyResolveCollaborationResult::Fail),
        );
        self.events.push(Event::Resign(id, hunter));
        self.events.push(Event::Accept(id));
        self.change_state(id, BountyState::Accepted, now);
        proof {
            assert(old(self).states@.contains_key(id));
            assert(self.states@.dom() == old(self).states@.dom());
            assert forall|h: AccountId| #[trigger] self.tracker.count(h) <= self.max_holding_bounties by {
                assert(old(self).tracker.count(h) <= old(self).max_holding_bounties);
            }
            Self::lemma_locked_step(old(self), self, id);
            Self::lemma_wf_update(old(self), self, id);
            assert forall|c2: CurrencyId| #[trigger] self.ratio(c2) == old(self).ratio(c2) by {}
            assert forall|b: BountyId| b != id implies #[trigger] self.bounty(b) == old(self).bounty(b) by {}
            assert forall|b: BountyId| b != id implies #[trigger] self.resolver(b) == old(self).resolver(b) by {}
        }
        Ok(())
    }

    /// The funder closes bounty `id`, which has not ended yet: its payment is
    /// released back to the funder and every hunter association goes.
    pub fn close_bounty_impl(&mut self, funder: AccountId, id: BountyId) -> (r: Result<(), Error>)
        requires
            old(self).wf(),
        ensures
            final(self).wf(),
            r == old(self).close_result(funder, id),
            r is Err ==> *final(self) == *old(self),
            r is Ok ==> {
                let b = old(self).bounty(id).unwrap();
                &&& final(self).state(id) == Some(BountyState::Closed)
                &&& Self::released(old(self).ledger(), final(self).ledger(), b.currency(), funder, b.payment() as nat)
                &&& old(self).ledger().reserved(b.currency(), b.owner()) >= b.payment()
                &&& Self::purged(old(self).hunters(), final(self).hunters(), id)
                &&& final(self).hunters().assignee(id) is None
                &&& final(self).approved_at(id) == old(self).approved_at(id)
                &&& final(self).assigned_at(id) == old(self).assigned_at(id)
                &&& final(self).bounty(id) == old(self).bounty(id)
                &&& old(self).same_other_bounties(final(self), id)
                &&& final(self).scores() == old(self).scores()
                &&& final(self).powers() == old(self).powers()
                &&& old(self).same_config(final(self))
                &&& final(self).log() == old(self).log().push(Event::Close(id, 0))
            },
    {
        let bounty = match self.get_bounty(&id) {
            Ok(b) => b,
            Err(e) => {
                return Err(e);
            },
        };
        match Self::check_funder(&funder, &bounty) {
            Ok(()) => {},
            Err(e) => {
                return Err(e);
            },
        }
        proof {
            assert(old(self).states@.contains_key(id));
        }
        match self.check_bounty_can_be_closed(id) {
            Ok(()) => {},
            Err(e) => {
                return Err(e);
            },
        }
        let (c, amount) = Self::parse_payment(&bounty);
        let remaining = self.escrow.unreserve(c, funder, amount);
        self.remove_hunters_for_bounty(id);
        self.events.push(Event::Close(id, remaining));
        self.change_state(id, BountyState::Closed, 0);
        proof {
            assert(self.states@.dom() == old(self).states@.dom());
            assert forall|h: AccountId| #[trigger] self.tracker.count(h) <= self.max_holding_bounties by {
                assert(old(self).tracker.count(h) <= old(self).max_holding_bounties);
            }
            old(self).lemma_payment_reserved(id);
            Self::lemma_locked_step(old(self), self, id);
            Self::lemma_wf_update(old(self), self, id);
            assert forall|c2: CurrencyId| #[trigger] self.ratio(c2) == old(self).ratio(c2) by {}
            assert forall|b: BountyId| b != id implies #[trigger] self.bounty(b) == old(self).bounty(b) by {}
            assert forall|b: BountyId| b != id implies #[trigger] self.resolver(b) == old(self).resolver(b) by {}
        }
        Ok(())
    }

    /// The council closes bounty `id` for going stale: it must be `Accepted`
    /// or `Assigned`, and more than the outdated height must have passed
    /// since it became so. Its payment is released back to the funder and
    /// every hunter association goes.
    pub fn force_close_bounty_impl(&mut self, id: BountyId, reason: CloseReason, now: BlockNumber) -> (r: Result<
        (),
        Error,
    >)
        requires
            old(self).wf(),
        ensures
            final(self).wf(),
            r == old(self).force_close_result(id, reason, now),
            r is Err ==> *final(self) == *old(self),
            r is Ok ==> {
                let b = old(self).bounty(id).unwrap();
                &&& final(self).state(id) == Some(BountyState::Outdated)
                &&& Self::released(old(self).ledger(), final(self).ledger(), b.currency(), b.owner(), b.payment() as nat)
                &&& old(self).ledger().reserved(b.currency(), b.owner()) >= b.payment()
                &&& Self::purged(old(self).hunters(), final(self).hunters(), id)
                &&& final(self).hunters().assignee(id) is None
                &&& final(self).approved_at(id) == old(self).approved_at(id)
                &&& final(self).assigned_at(id) == old(self).assigned_at(id)
                &&& final(self).bounty(id) == old(self).bounty(id)
                &&& old(self).same_other_bounties(final(self), id)
                &&& final(self).scores() == old(self).scores()
                &&& final(self).powers() == old(self).powers()
                &&& old(self).same_config(final(self))
                &&& final(self).log() == old(self).log().push(Event::ForceClosed(id, reason, 0))
            },
    {
        let state = match self.bounty_state_of(id) {
            None => {
                return Err(Error::NotExisted);
            },
            Some(s) => s,
        };
        if reason != CloseReason::Outdated {
            return Err(Error::InvalidState);
        }
        if state != BountyState::Accepted && state != BountyState::Assigned {
            return Err(Error::InvalidState);
        }
        let since = if state == BountyState::Assigned {
            self.assigned_height(id)
        } else {
            self.approved_height(id)
        };
        if now <= since || now - since <= self.outdated_height {
            return Err(Error::ValidBounty);
        }
        proof {
            assert(old(self).bounties@.contains_key(id));
        }
        let bounty = match self.get_bounty(&id) {
            Ok(b) => b,
            Err(e) => {
                return Err(e);
            },
        };
        let funder = Self::get_funder(&bounty);
        let (c, amount) = Self::parse_payment(&bounty);
        let remaining = self.escrow.unreserve(c, funder, amount);
        self.remove_hunters_for_bounty(id);
        self.events.push(Event::ForceClosed(id, reason, remaining));
        self.change_state(id, BountyState::Outdated, 0);
        proof {
            assert(self.states@.dom() == old(self).states@.dom());
            assert forall|h: AccountId| #[trigger] self.tracker.count(h) <= self.max_holding_bounties by {
                assert(old(self).tracker.count(h) <= old(self).max_holding_bounties);
            }
            old(self).lemma_payment_reserved(id);
            Self::lemma_locked_step(old(self), self, id);
            Self::lemma_wf_update(old(self), self, id);
            assert forall|c2: CurrencyId| #[trigger] self.ratio(c2) == old(self).ratio(c2) by {}
            assert forall|b: BountyId| b != id implies #[trigger] self.bounty(b) == old(self).bounty(b) by {}
            assert forall|b: BountyId| b != id implies #[trigger] self.resolver(b) == old(self).resolver(b) by {}
        }
        Ok(())
    }
}

/// The purse of `x` in `c` can take `extra` more.
pub open spec fn fits(e: Escrow, c: CurrencyId, x: AccountId, extra: nat) -> bool {
    e.free(c, x) + e.reserved(c, x) + extra <= u128::MAX
}

/// The payout of a resolution can be made: no recipient's purse overflows.
pub open spec fn payout_fits(
    e: Escrow,
    c: CurrencyId,
    from: AccountId,
    hunter: AccountId,
    to_hunter: nat,
    council: AccountId,
    to_council: nat,
) -> bool {
    &&& hunter != from ==> fits(e, c, hunter, paid_to(hunter, hunter, to_hunter, council, to_council))
    &&& council != from ==> fits(e, c, council, paid_to(council, hunter, to_hunter, council, to_council))
}

/// `post` is `pre` after `to_hunter` and `to_council` of the reserve of
/// `from` in `c` went to the free balances of `hunter` and `council`.
pub open spec fn paid_out(
    pre: Escrow,
    post: Escrow,
    c: CurrencyId,
    from: AccountId,
    hunter: AccountId,
    to_hunter: nat,
    council: AccountId,
    to_council: nat,
) -> bool {
    &&& post.reserved(c, from) == pre.reserved(c, from) - (to_hunter + to_council)
    &&& forall|x: AccountId| x != from ==> #[trigger] post.reserved(c, x) == pre.reserved(c, x)
    &&& forall|x: AccountId| #[trigger] post.free(c, x) == pre.free(c, x) + paid_to(x, hunter, to_hunter, council, to_council)
    &&& forall|c2: CurrencyId, x: AccountId| c2 != c ==> #[trigger] post.free(c2, x) == pre.free(c2, x)
    &&& forall|c2: CurrencyId, x: AccountId| c2 != c ==> #[trigger] post.reserved(c2, x) == pre.reserved(c2, x)
    &&& forall|c2: CurrencyId| #[trigger] post.issuance(c2) == pre.issuance(c2)
}

impl Module {
    /// The council's cut of the payment of `b`.
    pub open spec fn fee_of(&self, b: Bounty) -> nat {
        council_fee_of(b.payment() as nat, self.fee_percent())
    }

    /// What `resolve_bounty_and_remark_impl` answers.
    pub open spec fn resolve_result(&self, id: BountyId, funder: AccountId) -> Result<(), Error> {
        match self.bounty(id) {
            None => Err(Error::NotExisted),
            Some(b) => if b.owner() != funder {
                Err(Error::NotFunder)
            } else if self.state(id) != Some(BountyState::Submitted) {
                Err(Error::InvalidState)
            } else if !payout_fits(
                self.ledger(),
                b.currency(),
                funder,
                self.hunters().assignee(id).unwrap(),
                (b.payment() - self.fee_of(b)) as nat,
                self.council(),
                self.fee_of(b),
            ) {
                Err(Error::Overflow)
            } else {
                Ok(())
            },
        }
    }

    /// What `remark_bounty_funder_impl` answers.
    pub open spec fn remark_result(&self, id: BountyId, hunter: AccountId) -> Result<(), Error> {
        match self.state(id) {
            None => Err(Error::NotExisted),
            Some(s) => if s != BountyState::Resolved {
                Err(Error::InvalidState)
            } else if self.resolver(id) != Some(hunter) {
                Err(Error::NotHunter)
            } else {
                Ok(())
            },
        }
    }

    /// The mining power a resolution of `b` brings.
    pub open spec fn power_of(&self, b: Bounty) -> nat {
        saturating_product(self.fee_of(b), self.ratio(b.currency()))
    }

    fn fits_more(&self, c: CurrencyId, x: AccountId, extra: Balance) -> (r: bool)
        ensures
            r == fits(self.ledger(), c, x, extra as nat),
    {
        let f = self.escrow.free_balance(c, x);
        let rs = self.escrow.reserved_balance(c, x);
        f <= u128::MAX - extra && f + extra <= u128::MAX - rs
    }

    /// The funder pays for the submitted work on bounty `id`: the assignee
    /// receives the payment less the council's cut, the council account the
    /// cut, both straight from the funder's reserve. The assignee's reputation
    /// takes the score of a successful bounty and then that of `remark`; the
    /// funder and the assignee gain nine tenths and one tenth of the mining
    /// power that the cut is worth in the session of `now`. Every hunter
    /// association goes, the assignee included; the paid hunter is kept
    /// apart as the bounty's resolver, which may remark the funder once.
    #[verifier::rlimit(40)]
    pub fn resolve_bounty_and_remark_impl(
        &mut self,
        id: BountyId,
        funder: AccountId,
        remark: BountyRemarkCollaborationResult,
        now: BlockNumber,
    ) -> (r: Result<(), Error>)
        requires
            old(self).wf(),
        ensures
            final(self).wf(),
            r == old(self).resolve_result(id, funder),
            r is Err ==> *final(self) == *old(self),
            r is Ok ==> {
                let b = old(self).bounty(id).unwrap();
                let c = b.currency();
                let hunter = old(self).hunters().assignee(id).unwrap();
                let fee = old(self).fee_of(b);
                let power = old(self).power_of(b);
                let s = mining::session_of(now, old(self).powers().length());
                &&& final(self).state(id) == Some(BountyState::Resolved)
                &&& paid_out(old(self).ledger(), final(self).ledger(), c, funder, hunter, (b.payment() - fee) as nat, old(self).council(), fee)
                &&& forall|a: AccountId| #[trigger] final(self).scores().score(a) == credit_score(
                    credit_score(old(self).scores().score(a), a, hunter, reputation::behavior_score(
                        Behavior::BountyResolve(BountyResolveCollaborationResult::Success),
                    )),
                    a,
                    hunter,
                    reputation::behavior_score(Behavior::BountyRemark(remark)),
                )
                &&& final(self).powers().length() == old(self).powers().length()
                &&& forall|a: AccountId| #[trigger] final(self).powers().power(s, a) == credit(
                    credit(old(self).powers().power(s, a), a, funder, funder_power_of(power)),
                    a,
                    hunter,
                    hunter_power_of(power),
                )
                &&& forall|s2: SessionIndex, a: AccountId| s2 != s ==> #[trigger] final(self).powers().power(s2, a) == old(self).powers().power(s2, a)
                &&& final(self).powers().total(s) == mining::saturating_sum(old(self).powers().total(s), power)
                &&& forall|s2: SessionIndex| s2 != s ==> #[trigger] final(self).powers().total(s2) == old(self).powers().total(s2)
                &&& forall|h: AccountId| !#[trigger] final(self).hunters().hunting(id, h)
                &&& forall|h: AccountId| #[trigger] final(self).hunters().holding(h, id) is None
                &&& forall|h: AccountId| #[trigger] final(self).hunters().count(h) <= old(self).hunters().count(h)
                &&& final(self).hunters().assignee(id) is None
                &&& final(self).resolver(id) == Some(hunter)
                &&& final(self).approved_at(id) == old(self).approved_at(id)
                &&& final(self).assigned_at(id) == old(self).assigned_at(id)
                &&& final(self).bounty(id) == old(self).bounty(id)
                &&& old(self).same_other_bounties(final(self), id)
                &&& old(self).same_config(final(self))
                &&& final(self).log() == old(self).log().push(Event::Resolve(id)).push(Event::FunderRemark(id, hunter, remark))
            },
    {
        let bounty = match self.get_bounty(&id) {
            Ok(b) => b,
            Err(e) => {
                return Err(e);
            },
        };
        match Self::check_funder(&funder, &bounty) {
            Ok(()) => {},
            Err(e) => {
                return Err(e);
            },
        }
        if self.bounty_state_of(id) != Some(BountyState::Submitted) {
            return Err(Error::InvalidState);
        }
        let hunter = match self.tracker.assignee_of(id) {
            Some(h) => h,
            None => {
                return Err(Error::InvalidState);
            },
        };
        let (c, amount) = Self::parse_payment(&bounty);
        let fee = mul_div_nearest(amount, self.council_fee as u128, 100);
        let council = self.council_account;
        proof {
            old(self).lemma_payment_reserved(id);
        }
        let to_hunter = amount - fee;
        let hunter_gets: Balance = if council == hunter {
            amount
        } else {
            to_hunter
        };
        let council_gets: Balance = if council == hunter {
            amount
        } else {
            fee
        };
        if (hunter != funder && !self.fits_more(c, hunter, hunter_gets)) || (council != funder
            && !self.fits_more(c, council, council_gets)) {
            return Err(Error::Overflow);
        }
        let ghost e0 = self.escrow;
        let _ = self.escrow.repatriate_reserved(c, funder, hunter, to_hunter);
        let ghost e1 = self.escrow;
        proof {
            assert(e1.reserved(c, funder) == e0.reserved(c, funder) - to_hunter);
            assert(council != funder ==> e1.free(c, council) + e1.reserved(c, council) + fee <= u128::MAX);
        }
        let _ = self.escrow.repatriate_reserved(c, funder, council, fee);
        proof {
            let e2 = self.escrow;
            assert forall|x: AccountId| #[trigger] e2.free(c, x) == e0.free(c, x) + paid_to(x, hunter, to_hunter as nat, council, fee as nat) by {
                if x != funder && x != hunter {
                    assert(e1.free(c, x) == e0.free(c, x));
                }
                if x != funder && x != council {
                    assert(e2.free(c, x) == e1.free(c, x));
                }
            }
            assert forall|x: AccountId| x != funder implies #[trigger] e2.reserved(c, x) == e0.reserved(c, x) by {
                assert(e1.reserved(c, x) == e0.reserved(c, x));
            }
            assert forall|c2: CurrencyId, x: AccountId| c2 != c implies #[trigger] e2.free(c2, x) == e0.free(c2, x) by {
                assert(e1.free(c2, x) == e0.free(c2, x));
            }
            assert forall|c2: CurrencyId, x: AccountId| c2 != c implies #[trigger] e2.reserved(c2, x) == e0.reserved(c2, x) by {
                assert(e1.reserved(c2, x) == e0.reserved(c2, x));
            }
        }
        let ghost r0 = self.reputation;
        self.reputation.add_behavior_score_by_behavior(
            &hunter,
            &Behavior::BountyResolve(BountyResolveCollaborationResult::Success),
        );
        let ghost r1 = self.reputation;
        self.reputation.add_behavior_score_by_behavior(&hunter, &Behavior::BountyRemark(remark));
        proof {
            let r2 = self.reputation;
            assert forall|a: AccountId| #[trigger] r2.score(a) == credit_score(
                credit_score(r0.score(a), a, hunter, reputation::behavior_score(
                    Behavior::BountyResolve(BountyResolveCollaborationResult::Success),
                )),
                a,
                hunter,
                reputation::behavior_score(Behavior::BountyRemark(remark)),
            ) by {
                if a != hunter {
                    assert(r1.score(a) == r0.score(a));
                }
            }
        }
        let ratio = self.currency_ratios(c);
        let total_power = saturating_mul(fee, ratio);
        let funder_power = mul_div_floor(total_power, 9, 10);
        let hunter_power = total_power / 10;
        let ghost m0 = self.mining;
        let ghost s = mining::session_of(now, m0.length());
        self.mining.add_mining_power(&funder, funder_power, now);
        let ghost m1 = self.mining;
        self.mining.add_mining_power(&hunter, hunter_power, now);
        let ghost m2 = self.mining;
        self.mining.add_session_total_mining_power(total_power, now);
        proof {
            let m3 = self.mining;
            assert forall|a: AccountId| #[trigger] m3.power(s, a) == credit(
                credit(m0.power(s, a), a, funder, funder_power as nat),
                a,
                hunter,
                hunter_power as nat,
            ) by {
                assert(m3.account_power(s, a) == m2.account_power(s, a));
                if a != hunter {
                    assert(m2.account_power(s, a) == m1.account_power(s, a));
                }
                if a != funder {
                    assert(m1.account_power(s, a) == m0.account_power(s, a));
                }
            }
            assert forall|s2: SessionIndex, a: AccountId| s2 != s implies #[trigger] m3.power(s2, a) == m0.power(s2, a) by {
                assert(m3.account_power(s2, a) == m2.account_power(s2, a));
                assert(m2.account_power(s2, a) == m1.account_power(s2, a));
                assert(m1.account_power(s2, a) == m0.account_power(s2, a));
            }
            assert forall|s2: SessionIndex| #[trigger] m2.total(s2) == m0.total(s2) by {
                assert(m2.session_power(s2) == m1.session_power(s2));
                assert(m1.session_power(s2) == m0.session_power(s2));
            }
            assert forall|s2: SessionIndex| s2 != s implies #[trigger] m3.total(s2) == m0.total(s2) by {
                assert(m3.session_power(s2) == m2.session_power(s2));
            }
        }
        self.tracker.clear_hunters(id);
        self.resolvers.insert(id, hunter);
        self.events.push(Event::Resolve(id));
        self.events.push(Event::FunderRemark(id, hunter, remark));
        self.change_state(id, BountyState::Resolved, now);
        proof {
            assert(old(self).bounties@.contains_key(id));
            assert(self.states@.dom() == old(self).states@.dom());
            assert forall|h: AccountId| #[trigger] self.tracker.count(h) <= self.max_holding_bounties by {
                assert(old(self).tracker.count(h) <= old(self).max_holding_bounties);
            }
            Self::lemma_locked_step(old(self), self, id);
            Self::lemma_wf_update(old(self), self, id);
            assert forall|c2: CurrencyId| #[trigger] self.ratio(c2) == old(self).ratio(c2) by {}
            assert forall|b: BountyId| b != id implies #[trigger] self.bounty(b) == old(self).bounty(b) by {}
            assert forall|b: BountyId| b != id implies #[trigger] self.resolver(b) == old(self).resolver(b) by {}
        }
        Ok(())
    }

    /// The hunter that resolved bounty `id` remarks its funder, once: the
    /// funder's reputation takes the score of `remark`, and the record of
    /// the hunter goes.
    pub fn remark_bounty_funder_impl(
        &mut self,
        id: BountyId,
        hunter: AccountId,
        remark: BountyRemarkCollaborationResult,
    ) -> (r: Result<(), Error>)
        requires
            old(self).wf(),
        ensures
            final(self).wf(),
            r == old(self).remark_result(id, hunter),
            r is Err ==> *final(self) == *old(self),
            r is Ok ==> {
                let funder = old(self).bounty(id).unwrap().owner();
                &&& final(self).resolver(id) is None
                &&& final(self).hunters() == old(self).hunters()
                &&& forall|h: AccountId| !#[trigger] final(self).hunters().hunting(id, h)
                &&& forall|h: AccountId| #[trigger] final(self).hunters().holding(h, id) is None
                &&& final(self).hunters().assignee(id) is None
                &&& final(self).scores().score(funder) == reputation::saturate_i128(
                    old(self).scores().score(funder) + reputation::behavior_score(Behavior::BountyRemark(remark)),
                )
                &&& forall|a: AccountId| a != funder ==> #[trigger] final(self).scores().score(a) == old(self).scores().score(a)
                &&& final(self).state(id) == old(self).state(id)
                &&& final(self).bounty(id) == old(self).bounty(id)
                &&& old(self).same_other_bounties(final(self), id)
                &&& final(self).ledger() == old(self).ledger()
                &&& final(self).powers() == old(self).powers()
                &&& old(self).same_config(final(self))
                &&& final(self).log() == old(self).log().push(Event::HunterRemark(id, remark))
            },
    {
        match self.bounty_state_of(id) {
            None => {
                return Err(Error::NotExisted);
            },
            Some(s) => {
                if s != BountyState::Resolved {
                    return Err(Error::InvalidState);
                }
            },
        }
        match self.resolvers.get(&id) {
            Some(r) => {
                if *r != hunter {
                    return Err(Error::NotHunter);
                }
            },
            None => {
                return Err(Error::NotHunter);
            },
        }
        proof {
            assert(old(self).bounties@.contains_key(id));
            assert forall|h: AccountId| #[trigger] self.tracker.holding(h, id) is None && !self.tracker.hunting(id, h) by {
                self.tracker.lemma_consistent(id, h);
                assert(self.tracker.hunting(id, h) ==> Self::is_open(self.state(id).unwrap()));
            }
            assert(self.tracker.assignee(id) is None);
        }
        let bounty = match self.get_bounty(&id) {
            Ok(b) => b,
            Err(e) => {
                return Err(e);
            },
        };
        let funder = Self::get_funder(&bounty);
        self.resolvers.remove(&id);
        self.reputation.add_behavior_score_by_behavior(&funder, &Behavior::BountyRemark(remark));
        self.events.push(Event::HunterRemark(id, remark));
        proof {
            Self::lemma_locked_step(old(self), self, id);
            Self::lemma_wf_update(old(self), self, id);
            assert forall|c2: CurrencyId| #[trigger] self.ratio(c2) == old(self).ratio(c2) by {}
        }
        Ok(())
    }
}

impl Module {
    /// Pays `who` its share of the reward pool of the ended session
    /// `session`, in the native currency, and takes its power in that
    /// session so that it cannot claim twice.
    pub fn claim(&mut self, who: AccountId, session: SessionIndex, now: BlockNumber) -> (r: Result<
        Balance,
        MiningError,
    >)
        requires
            old(self).wf(),
        ensures
            final(self).wf(),
            old(self).powers().claim_result(who, session, now) is Err ==> r == old(self).powers().claim_result(who, session, now),
            old(self).powers().claim_result(who, session, now) matches Ok(v) ==> {
                let fits = old(self).ledger().free(CurrencyId::Native, who) + old(self).ledger().reserved(CurrencyId::Native, who) + v <= u128::MAX
                    && old(self).ledger().issuance(CurrencyId::Native) + v <= u128::MAX;
                &&& fits ==> r == Ok::<Balance, MiningError>(v)
                &&& !fits ==> r == Err::<Balance, MiningError>(MiningError::Overflow)
            },
            r is Err ==> *final(self) == *old(self),
            r matches Ok(v) ==> {
                &&& final(self).powers().taken_from(&old(self).powers(), session, who)
                &&& final(self).ledger().free(CurrencyId::Native, who) == old(self).ledger().free(CurrencyId::Native, who) + v
                &&& final(self).ledger().reserved(CurrencyId::Native, who) == old(self).ledger().reserved(CurrencyId::Native, who)
                &&& final(self).ledger().issuance(CurrencyId::Native) == old(self).ledger().issuance(CurrencyId::Native) + v
                &&& old(self).ledger().same_except(&final(self).ledger(), CurrencyId::Native, who)
                &&& final(self).hunters() == old(self).hunters()
                &&& final(self).scores() == old(self).scores()
                &&& forall|b: BountyId| #[trigger] final(self).state(b) == old(self).state(b)
                    && final(self).bounty(b) == old(self).bounty(b)
                &&& old(self).same_config(final(self))
                &&& final(self).log() == old(self).log().push(Event::RewardClaimed(who, session, v))
            },
    {
        let reward = match self.mining.pending_reward(who, session, now) {
            Ok(v) => v,
            Err(e) => {
                return Err(e);
            },
        };
        let native = CurrencyId::Native;
        if self.escrow.free_balance(native, who) > u128::MAX - reward
            || self.escrow.free_balance(native, who) + reward > u128::MAX - self.escrow.reserved_balance(native, who)
            || self.escrow.total_issuance(native) > u128::MAX - reward {
            return Err(MiningError::Overflow);
        }
        let _ = self.escrow.deposit(native, who, reward);
        let _ = self.mining.claim(who, session, now);
        self.events.push(Event::RewardClaimed(who, session, reward));
        proof {
            Self::lemma_wf_frame(old(self), self);
            assert forall|c2: CurrencyId| #[trigger] self.ratio(c2) == old(self).ratio(c2) by {}
        }
        Ok(reward)
    }

    /// Runs at the start of block `now`: where `now` begins a new session,
    /// the reward pool of the session that just ended is fixed at one
    /// hundredth of the native currency's issuance.
    pub fn on_initialize(&mut self, now: BlockNumber)
        requires
            old(self).wf(),
        ensures
            final(self).wf(),
            final(self).powers().same_powers(&old(self).powers()),
            match mining::closing_session(now, old(self).powers().length()) {
                Some(s) if !old(self).powers().pool_fixed(s) => {
                    &&& final(self).log() == old(self).log().push(Event::SessionTotalRewardSet(
                        s,
                        mining::pool_of_issuance(old(self).ledger().issuance(CurrencyId::Native)) as Balance,
                    ))
                    &&& final(self).powers().pool_fixed(s)
                    &&& final(self).powers().pool(s) == mining::pool_of_issuance(old(self).ledger().issuance(CurrencyId::Native))
                    &&& forall|s2: SessionIndex|
                        s2 != s ==> #[trigger] final(self).powers().pool(s2) == old(self).powers().pool(s2)
                            && final(self).powers().pool_fixed(s2) == old(self).powers().pool_fixed(s2)
                },
                _ => {
                    &&& final(self).log() == old(self).log()
                    &&& forall|s2: SessionIndex|
                        #[trigger] final(self).powers().pool(s2) == old(self).powers().pool(s2) && final(self).powers().pool_fixed(s2)
                            == old(self).powers().pool_fixed(s2)
                },
            },
            final(self).ledger() == old(self).ledger(),
            final(self).hunters() == old(self).hunters(),
            final(self).scores() == old(self).scores(),
            forall|b: BountyId| #[trigger] final(self).state(b) == old(self).state(b)
                && final(self).bounty(b) == old(self).bounty(b),
            old(self).same_config(final(self)),
    {
        let issuance = self.escrow.total_issuance(CurrencyId::Native);
        let ghost m0 = self.mining;
        let fixed = self.mining.on_initialize(now, issuance);
        match fixed {
            Some((s, pool)) => {
                self.events.push(Event::SessionTotalRewardSet(s, pool));
            },
            None => {},
        }
        proof {
            match mining::closing_session(now, m0.length()) {
                Some(s) => {
                    if !m0.pool_fixed(s) {
                        assert(fixed == Some((s, mining::pool_of_issuance(issuance as nat) as Balance)));
                        assert(self.events@ == old(self).events@.push(Event::SessionTotalRewardSet(s, mining::pool_of_issuance(issuance as nat) as Balance)));
                    } else {
                        assert(fixed is None);
                    }
                },
                None => {
                    assert(fixed is None);
                },
            }
        }
        proof {
            assert(old(self).powers() == m0);
            assert(self.powers() == self.mining);
            assert(old(self).ledger().issuance(CurrencyId::Native) == issuance);
            Self::lemma_wf_frame(old(self), self);
            assert forall|c2: CurrencyId| #[trigger] self.ratio(c2) == old(self).ratio(c2) by {}
        }
    }

    /// After a claim by `who` on session `s` paid out, the same claim fails
    /// with `NoMiningPower`, at that block or any later one.
    pub proof fn lemma_claim_idempotent(
        pre: &Module,
        post: &Module,
        who: AccountId,
        s: SessionIndex,
        now: BlockNumber,
        later: BlockNumber,
    )
        requires
            pre.wf(),
            pre.powers().claim_result(who, s, now) is Ok,
            post.powers().taken_from(&pre.powers(), s, who),
            now <= later,
        ensures
            post.powers().claim_result(who, s, later) == Err::<Balance, MiningError>(
                MiningError::NoMiningPower,
            ),
    {
        mining::lemma_claim_twice(pre.powers(), post.powers(), who, s, now, later);
    }

    /// What a consistent registry guarantees of bounty `b` and account `h`:
    /// a bounty has a state exactly when it has a record; `h` hunts `b`
    /// exactly when it holds it, and only while `b` is open; `h` works on `b`
    /// exactly when it is its assignee, and `b` has an assignee exactly when it is
    /// assigned or submitted; the council's cut is at most the payment; no
    /// hunter holds more bounties than allowed; sessions have a length.
    pub proof fn lemma_consistent(&self, b: BountyId, h: AccountId)
        requires
            self.wf(),
        ensures
            self.state(b) is Some <==> self.bounty(b) is Some,
            self.hunters().hunting(b, h) <==> self.hunters().holding(h, b) is Some,
            self.hunters().holding(h, b) == Some(HunterBountyState::Processing) <==> self.hunters().assignee(b) == Some(h),
            self.hunters().hunting(b, h) ==> self.state(b) is Some && Self::is_open(self.state(b).unwrap()),
            self.hunters().assignee(b) is Some <==> (self.state(b) == Some(BountyState::Assigned)
                || self.state(b) == Some(BountyState::Submitted)),
            self.fee_percent() <= 100,
            self.hunters().count(h) <= self.max_holding(),
            self.powers().wf(),
    {
        self.tracker.lemma_consistent(b, h);
    }

    /// No hunter of a consistent registry holds more bounties than allowed.
    pub proof fn lemma_holding_cap(&self, hunter: AccountId)
        requires
            self.wf(),
        ensures
            self.hunters().count(hunter) <= self.max_holding(),
    {
    }

    /// A hunter that holds as many bounties as allowed is turned away from
    /// any further open bounty with `TooManyHuntedBounties`.
    pub proof fn lemma_cap_enforced(&self, id: BountyId, hunter: AccountId)
        requires
            self.wf(),
            self.state(id) is Some,
            Self::is_open(self.state(id).unwrap()),
            self.hunters().count(hunter) == self.max_holding(),
        ensures
            self.hunt_result(id, hunter) == Err::<(), Error>(Error::TooManyHuntedBounties),
    {
    }

    /// Once a bounty was created from `creator` at nonce `nonce`, creating
    /// another from the same account and nonce fails with `Existed`.
    pub proof fn lemma_create_twice(&self, creator: AccountId, nonce: u32, bounty: Bounty)
        requires
            self.state(bounty_id_of(creator, nonce)) is Some,
        ensures
            self.create_result(creator, nonce, bounty) == Err::<(), Error>(Error::Existed),
    {
    }

    /// Each action is refused with `InvalidState` in every state from which
    /// it has no transition, once the checks that come before the state (the
    /// bounty exists, the caller funds it) have passed.
    pub proof fn lemma_unlisted_states_refused(
        &self,
        id: BountyId,
        funder: AccountId,
        hunter: AccountId,
        now: BlockNumber,
    )
        requires
            self.wf(),
            self.state(id) is Some,
            self.bounty(id).unwrap().owner() == funder,
        ensures
            ({
                let s = self.state(id).unwrap();
                &&& s != BountyState::Applying ==> self.examine_result(id) == Err::<(), Error>(Error::InvalidState)
                &&& !(s == BountyState::Accepted || s == BountyState::Assigned) ==> self.assign_result(id, funder, hunter)
                    == Err::<(), Error>(Error::InvalidState)
                &&& !Self::is_open(s) ==> self.hunt_result(id, hunter) == Err::<(), Error>(Error::InvalidState)
                &&& s != BountyState::Assigned ==> self.submit_result(id, hunter) == Err::<(), Error>(Error::InvalidState)
                &&& s != BountyState::Assigned ==> self.resign_result(id, hunter) == Err::<(), Error>(Error::InvalidState)
                &&& s != BountyState::Submitted ==> self.resolve_result(id, funder) == Err::<(), Error>(Error::InvalidState)
                &&& is_terminal(s) ==> self.close_result(funder, id) == Err::<(), Error>(Error::InvalidState)
                &&& !(s == BountyState::Accepted || s == BountyState::Assigned) ==> self.force_close_result(id, CloseReason::Outdated, now)
                    == Err::<(), Error>(Error::InvalidState)
                &&& s != BountyState::Resolved ==> self.remark_result(id, hunter) == Err::<(), Error>(Error::InvalidState)
            }),
    {
        assert(self.states@.contains_key(id));
        assert(self.bounties@.contains_key(id));
    }
}

/// The council never takes more than the payment.
pub proof fn lemma_fee_within_payment(payment: nat, percent: nat)
    requires
        percent <= 100,
    ensures
        council_fee_of(payment, percent) <= payment,
        (payment - council_fee_of(payment, percent)) + council_fee_of(payment, percent) == payment,
{
    lemma_nearest_within(payment, percent, 100);
}

/// A payout takes from the funder's reserve exactly what it credits to the
/// recipients' free balances: `to_hunter + to_council`.
pub proof fn lemma_payout_conserves(
    pre: Escrow,
    post: Escrow,
    c: CurrencyId,
    from: AccountId,
    hunter: AccountId,
    to_hunter: nat,
    council: AccountId,
    to_council: nat,
)
    requires
        paid_out(pre, post, c, from, hunter, to_hunter, council, to_council),
        pre.reserved(c, from) >= to_hunter + to_council,
    ensures
        pre.reserved(c, from) - post.reserved(c, from) == to_hunter + to_council,
        (post.free(c, hunter) - pre.free(c, hunter)) + (if council != hunter {
            post.free(c, council) - pre.free(c, council)
        } else {
            0
        }) == to_hunter + to_council,
{
    assert(post.free(c, hunter) == pre.free(c, hunter) + paid_to(hunter, hunter, to_hunter, council, to_council));
    assert(post.free(c, council) == pre.free(c, council) + paid_to(council, hunter, to_hunter, council, to_council));
}


impl Module {
    /// A resolution takes exactly the bounty's payment out of the funder's
    /// reserve, and the hunter and the council receive exactly that between
    /// them.
    pub proof fn lemma_resolve_conserves(pre: &Module, post: &Module, id: BountyId, funder: AccountId)
        requires
            pre.wf(),
            pre.resolve_result(id, funder) is Ok,
            ({
                let b = pre.bounty(id).unwrap();
                let fee = pre.fee_of(b);
                paid_out(
                    pre.ledger(),
                    post.ledger(),
                    b.currency(),
                    funder,
                    pre.hunters().assignee(id).unwrap(),
                    (b.payment() - fee) as nat,
                    pre.council(),
                    fee,
                )
            }),
        ensures
            ({
                let b = pre.bounty(id).unwrap();
                let c = b.currency();
                let hunter = pre.hunters().assignee(id).unwrap();
                let council = pre.council();
                &&& pre.ledger().reserved(c, funder) - post.ledger().reserved(c, funder) == b.payment()
                &&& (post.ledger().free(c, hunter) - pre.ledger().free(c, hunter)) + (if council != hunter {
                    post.ledger().free(c, council) - pre.ledger().free(c, council)
                } else {
                    0
                }) == b.payment()
            }),
    {
        let b = pre.bounty(id).unwrap();
        let fee = pre.fee_of(b);
        assert(pre.states@.contains_key(id));
        pre.lemma_payment_reserved(id);
        lemma_fee_within_payment(b.payment() as nat, pre.fee_percent());
        lemma_payout_conserves(
            pre.ledger(),
            post.ledger(),
            b.currency(),
            funder,
            pre.hunters().assignee(id).unwrap(),
            (b.payment() - fee) as nat,
            pre.council(),
            fee,
        );
    }

    /// Closing, force-closing or rejecting a bounty that holds its payment
    /// returns exactly that payment from the funder's reserve to its free
    /// balance.
    pub proof fn lemma_release_conserves_payment(pre: &Module, post: &Module, id: BountyId)
        requires
            pre.wf(),
            pre.state(id) is Some,
            holds_payment(pre.state(id).unwrap()),
            ({
                let b = pre.bounty(id).unwrap();
                Self::released(pre.ledger(), post.ledger(), b.currency(), b.owner(), b.payment() as nat)
            }),
        ensures
            ({
                let b = pre.bounty(id).unwrap();
                &&& pre.ledger().reserved(b.currency(), b.owner()) - post.ledger().reserved(b.currency(), b.owner())
                    == b.payment()
                &&& post.ledger().free(b.currency(), b.owner()) - pre.ledger().free(b.currency(), b.owner())
                    == b.payment()
            }),
    {
        pre.lemma_payment_reserved(id);
    }
}

} // verus!
