use std::collections::HashMap;
use vstd::prelude::*;

use crate::primitives::AccountId;

verus! {

/// How a bounty ended for the hunter who worked on it.
#[derive(PartialEq, Eq, Structural, Clone, Copy, Debug)]
pub enum BountyResolveCollaborationResult {
    Success,
    Fail,
}

/// The grade that one party of a bounty gives the other.
#[derive(PartialEq, Eq, Structural, Clone, Copy, Debug)]
pub enum BountyRemarkCollaborationResult {
    Bad,
    NotGood,
    Fine,
    Good,
    Perfect,
}

/// A collaboration outcome that moves an account's reputation.
#[derive(PartialEq, Eq, Structural, Clone, Copy, Debug)]
pub enum Behavior {
    BountyResolve(BountyResolveCollaborationResult),
    BountyRemark(BountyRemarkCollaborationResult),
}

/// The fixed score of each behavior.
pub open spec fn behavior_score(b: Behavior) -> int {
    match b {
        Behavior::BountyResolve(BountyResolveCollaborationResult::Success) => 10,
        Behavior::BountyResolve(BountyResolveCollaborationResult::Fail) => -2,
        Behavior::BountyRemark(BountyRemarkCollaborationResult::Bad) => -2,
        Behavior::BountyRemark(BountyRemarkCollaborationResult::NotGood) => 0,
        Behavior::BountyRemark(BountyRemarkCollaborationResult::Fine) => 1,
        Behavior::BountyRemark(BountyRemarkCollaborationResult::Good) => 3,
        Behavior::BountyRemark(BountyRemarkCollaborationResult::Perfect) => 5,
    }
}

/// `x` clamped into the range of `i128`.
pub open spec fn saturate_i128(x: int) -> int {
    if x > i128::MAX {
        i128::MAX as int
    } else if x < i128::MIN {
        i128::MIN as int
    } else {
        x
    }
}

/// What reputation a ledger holds for `a` (zero where it holds none).
pub open spec fn score_in(m: Map<AccountId, i128>, a: AccountId) -> int {
    if m.contains_key(a) {
        m[a] as int
    } else {
        0
    }
}

/// What the reputation ledger did.
#[derive(PartialEq, Eq, Structural, Clone, Copy, Debug)]
pub enum Event {
    /// The score of an account changed; it carries the new score.
    ReputationAdded(AccountId, i128),
}

/// Something that keeps a reputation score for each account.
pub trait ReputationBuilder {
    /// The current score of `a`.
    spec fn score(&self, a: AccountId) -> int;

    /// The changes of score so far, oldest first.
    spec fn added(&self) -> Seq<Event>;

    /// Adds the score of `behavior` to the reputation of `target`, saturating.
    fn add_behavior_score_by_behavior(&mut self, target: &AccountId, behavior: &Behavior)
        ensures
            final(self).score(*target) == saturate_i128(
                old(self).score(*target) + behavior_score(*behavior),
            ),
            forall|a: AccountId| a != *target ==> final(self).score(a) == old(self).score(a),
            final(self).added() == old(self).added().push(
                Event::ReputationAdded(*target, final(self).score(*target) as i128),
            ),
    ;

    /// The fixed score of a behavior.
    fn get_behavior_score(behavior: &Behavior) -> (r: i128)
        ensures
            r as int == behavior_score(*behavior),
    ;
}

/// The reputation ledger: a signed score per account, zero until first changed.
pub struct Module {
    scores: HashMap<AccountId, i128>,
    events: Vec<Event>,
}

impl View for Module {
    type V = Map<AccountId, i128>;

    closed spec fn view(&self) -> Map<AccountId, i128> {
        self.scores@
    }
}

impl Module {
    /// The changes of score so far, oldest first.
    pub closed spec fn log(&self) -> Seq<Event> {
        self.events@
    }

    /// A ledger in which every score is zero.
    pub fn new() -> (r: Module)
        ensures
            r@ == Map::<AccountId, i128>::empty(),
            r.log() == Seq::<Event>::empty(),
    {
        Module { scores: HashMap::new(), events: Vec::new() }
    }

    /// The changes of score so far, oldest first.
    pub fn events(&self) -> (r: &Vec<Event>)
        ensures
            r@ == self.log(),
    {
        &self.events
    }

    /// The score of `target`.
    pub fn behavior_score(&self, target: &AccountId) -> (r: i128)
        ensures
            r as int == score_in(self@, *target),
    {
        match self.scores.get(target) {
            Some(s) => *s,
            None => 0,
        }
    }

    /// Adds `score` to the reputation of `target`, saturating at the bounds of `i128`.
    pub fn add_behavior_score(&mut self, target: &AccountId, score: i128)
        ensures
            score_in(final(self)@, *target) == saturate_i128(score_in(old(self)@, *target) + score),
            forall|a: AccountId| a != *target ==> score_in(final(self)@, a) == score_in(old(self)@, a),
            final(self).log() == old(self).log().push(
                Event::ReputationAdded(*target, score_in(final(self)@, *target) as i128),
            ),
    {
        let pre = self.behavior_score(target);
        let new_score: i128 = if score > 0 && pre > i128::MAX - score {
            i128::MAX
        } else if score < 0 && pre < i128::MIN - score {
            i128::MIN
        } else {
            pre + score
        };
        self.scores.insert(*target, new_score);
        self.events.push(Event::ReputationAdded(*target, new_score));
    }
}

impl ReputationBuilder for Module {
    open spec fn score(&self, a: AccountId) -> int {
        score_in(self@, a)
    }

    open spec fn added(&self) -> Seq<Event> {
        self.log()
    }

    fn add_behavior_score_by_behavior(&mut self, target: &AccountId, behavior: &Behavior) {
        let score = Self::get_behavior_score(behavior);
        self.add_behavior_score(target, score);
    }

    fn get_behavior_score(behavior: &Behavior) -> (r: i128) {
        match behavior {
            Behavior::BountyResolve(BountyResolveCollaborationResult::Success) => 10,
            Behavior::BountyResolve(BountyResolveCollaborationResult::Fail) => -2,
            Behavior::BountyRemark(BountyRemarkCollaborationResult::Bad) => -2,
            Behavior::BountyRemark(BountyRemarkCollaborationResult::NotGood) => 0,
            Behavior::BountyRemark(BountyRemarkCollaborationResult::Fine) => 1,
            Behavior::BountyRemark(BountyRemarkCollaborationResult::Good) => 3,
            Behavior::BountyRemark(BountyRemarkCollaborationResult::Perfect) => 5,
        }
    }
}

} // verus!
