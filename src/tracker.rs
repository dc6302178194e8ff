use std::collections::{BTreeMap, HashMap};
use vstd::prelude::*;

use crate::primitives::{AccountId, BountyId};
use crate::types::HunterBountyState;

verus! {

broadcast use {vstd::std_specs::hash::group_hash_axioms, vstd::std_specs::btree::group_btree_axioms};

/// The relation between hunters and bounties, kept as two indices that are
/// always updated together: the hunters of each bounty, and the holdings of
/// each hunter. Beside them stands the one hunter a bounty is assigned to.
pub struct HunterTracker {
    hunters: BTreeMap<BountyId, Vec<AccountId>>,
    assigned: BTreeMap<BountyId, AccountId>,
    holdings: HashMap<AccountId, BTreeMap<BountyId, HunterBountyState>>,
}

/// `v` without any `h`.
pub(crate) fn without(v: &Vec<AccountId>, h: AccountId) -> (r: Vec<AccountId>)
    ensures
        forall|x: AccountId| r@.contains(x) <==> (v@.contains(x) && x != h),
{
    let mut r: Vec<AccountId> = Vec::new();
    let mut i: usize = 0;
    while i < v.len()
        invariant
            i <= v@.len(),
            forall|x: AccountId| r@.contains(x) <==> (v@.subrange(0, i as int).contains(x) && x != h),
        decreases v@.len() - i,
    {
        let x = v[i];
        let ghost before = r@;
        let ghost seen = v@.subrange(0, i as int);
        proof {
            assert(v@.subrange(0, i + 1) =~= seen.push(x));
        }
        if x != h {
            r.push(x);
        }
        proof {
            assert forall|y: AccountId| r@.contains(y) <==> (seen.push(x).contains(y) && y != h) by {
                if r@.contains(y) {
                    let k = choose|k: int| 0 <= k < r@.len() && r@[k] == y;
                    if k < before.len() {
                        assert(before[k] == y);
                        assert(before.contains(y));
                        let j = choose|j: int| 0 <= j < seen.len() && seen[j] == y;
                        assert(seen.push(x)[j] == y);
                    } else {
                        assert(seen.push(x)[seen.len() as int] == y);
                    }
                }
                if seen.push(x).contains(y) && y != h {
                    let k = choose|k: int| 0 <= k < seen.len() + 1 && seen.push(x)[k] == y;
                    if k < seen.len() {
                        assert(seen[k] == y);
                        assert(seen.contains(y));
                        assert(before.contains(y));
                        let j = choose|j: int| 0 <= j < before.len() && before[j] == y;
                        assert(r@[j] == y);
                    } else {
                        assert(r@[r@.len() - 1] == y);
                    }
                }
            }
        }
        i = i + 1;
    }
    proof {
        assert(v@.subrange(0, v@.len() as int) =~= v@);
    }
    r
}

/// Whether `v` holds `h`.
pub(crate) fn holds(v: &Vec<AccountId>, h: AccountId) -> (r: bool)
    ensures
        r == v@.contains(h),
{
    let mut i: usize = 0;
    while i < v.len()
        invariant
            i <= v@.len(),
            forall|j: int| 0 <= j < i ==> v@[j] != h,
        decreases v@.len() - i,
    {
        if v[i] == h {
            return true;
        }
        i = i + 1;
    }
    false
}

impl HunterTracker {
    /// Whether `h` has registered for bounty `b`.
    pub closed spec fn hunting(&self, b: BountyId, h: AccountId) -> bool {
        self.hunters@.contains_key(b) && self.hunters@[b]@.contains(h)
    }

    /// What `h` holds of bounty `b`, if anything.
    pub closed spec fn holding(&self, h: AccountId, b: BountyId) -> Option<HunterBountyState> {
        if self.holdings@.contains_key(h) && self.holdings@[h]@.contains_key(b) {
            Some(self.holdings@[h]@[b])
        } else {
            None
        }
    }

    /// How many bounties `h` holds.
    pub closed spec fn count(&self, h: AccountId) -> nat {
        if self.holdings@.contains_key(h) {
            self.holdings@[h]@.len()
        } else {
            0
        }
    }

    /// The hunter bounty `b` is assigned to, if any.
    pub closed spec fn assignee(&self, b: BountyId) -> Option<AccountId> {
        if self.assigned@.contains_key(b) {
            Some(self.assigned@[b])
        } else {
            None
        }
    }

    /// The two indices agree, and a hunter works on a bounty exactly when it
    /// is the bounty's assignee.
    pub closed spec fn wf(&self) -> bool {
        &&& forall|b: BountyId, h: AccountId|
            #![trigger self.hunting(b, h)]
            #![trigger self.holding(h, b)]
            self.hunting(b, h) <==> self.holding(h, b) is Some
        &&& forall|b: BountyId, h: AccountId| #[trigger]
            self.holding(h, b) == Some(HunterBountyState::Processing) ==> self.assignee(b) == Some(h)
        &&& forall|b: BountyId|
            #[trigger] self.assignee(b) is Some ==> self.holding(self.assignee(b).unwrap(), b) == Some(
                HunterBountyState::Processing,
            )
    }

    /// In a consistent tracker, `h` hunts `b` exactly when it holds it, and
    /// works on `b` exactly when it is the assignee of `b`.
    pub proof fn lemma_consistent(&self, b: BountyId, h: AccountId)
        requires
            self.wf(),
        ensures
            self.hunting(b, h) <==> self.holding(h, b) is Some,
            self.holding(h, b) == Some(HunterBountyState::Processing) <==> self.assignee(b) == Some(h),
    {
    }

    /// Nothing changes but what concerns bounty `b`.
    pub open spec fn same_except(&self, other: &HunterTracker, b: BountyId) -> bool {
        &&& forall|b2: BountyId, h: AccountId|
            b2 != b ==> #[trigger] other.hunting(b2, h) == self.hunting(b2, h)
        &&& forall|b2: BountyId, h: AccountId|
            b2 != b ==> #[trigger] other.holding(h, b2) == self.holding(h, b2)
        &&& forall|b2: BountyId| b2 != b ==> #[trigger] other.assignee(b2) == self.assignee(b2)
    }

    /// An empty tracker.
    pub fn new() -> (r: HunterTracker)
        ensures
            r.wf(),
            forall|b: BountyId, h: AccountId| !#[trigger] r.hunting(b, h),
            forall|b: BountyId, h: AccountId| #[trigger] r.holding(h, b) is None,
            forall|h: AccountId| #[trigger] r.count(h) == 0,
            forall|b: BountyId| #[trigger] r.assignee(b) is None,
    {
        HunterTracker { hunters: BTreeMap::new(), assigned: BTreeMap::new(), holdings: HashMap::new() }
    }

    /// Whether `h` has registered for bounty `b`.
    pub fn is_hunting(&self, b: BountyId, h: AccountId) -> (r: bool)
        ensures
            r == self.hunting(b, h),
    {
        match self.hunters.get(&b) {
            Some(v) => holds(v, h),
            None => false,
        }
    }

    /// What `h` holds of bounty `b`, if anything.
    pub fn holding_of(&self, h: AccountId, b: BountyId) -> (r: Option<HunterBountyState>)
        ensures
            r == self.holding(h, b),
    {
        match self.holdings.get(&h) {
            Some(m) => match m.get(&b) {
                Some(s) => Some(*s),
                None => None,
            },
            None => None,
        }
    }

    /// How many bounties `h` holds.
    pub fn count_of(&self, h: AccountId) -> (r: usize)
        ensures
            r == self.count(h),
    {
        match self.holdings.get(&h) {
            Some(m) => m.len(),
            None => 0,
        }
    }

    /// The hunter bounty `b` is assigned to, if any.
    pub fn assignee_of(&self, b: BountyId) -> (r: Option<AccountId>)
        ensures
            r == self.assignee(b),
    {
        match self.assigned.get(&b) {
            Some(h) => Some(*h),
            None => None,
        }
    }

    fn put_holding(&mut self, h: AccountId, b: BountyId, st: Option<HunterBountyState>)
        ensures
            final(self).hunters@ == old(self).hunters@,
            final(self).assigned@ == old(self).assigned@,
            final(self).holding(h, b) == st,
            forall|h2: AccountId, b2: BountyId|
                !(h2 == h && b2 == b) ==> #[trigger] final(self).holding(h2, b2) == old(self).holding(
                    h2,
                    b2,
                ),
            forall|h2: AccountId| h2 != h ==> #[trigger] final(self).count(h2) == old(self).count(h2),
            final(self).count(h) == if st is Some && old(self).holding(h, b) is None {
                old(self).count(h) + 1int
            } else if st is None && old(self).holding(h, b) is Some {
                old(self).count(h) - 1
            } else {
                old(self).count(h) as int
            },
    {
        let mut inner = match self.holdings.remove(&h) {
            Some(m) => m,
            None => BTreeMap::new(),
        };
        match st {
            Some(s) => {
                inner.insert(b, s);
            },
            None => {
                inner.remove(&b);
            },
        }
        self.holdings.insert(h, inner);
    }

    /// Registers `h` as a hunter of bounty `b`.
    pub fn add_hunter(&mut self, b: BountyId, h: AccountId)
        requires
            old(self).wf(),
            !old(self).hunting(b, h),
        ensures
            final(self).wf(),
            final(self).hunting(b, h),
            final(self).holding(h, b) == Some(HunterBountyState::Hunting),
            final(self).count(h) == old(self).count(h) + 1,
            forall|h2: AccountId| h2 != h ==> #[trigger] final(self).count(h2) == old(self).count(h2),
            forall|h2: AccountId|
                h2 != h ==> #[trigger] final(self).hunting(b, h2) == old(self).hunting(b, h2),
            forall|h2: AccountId|
                h2 != h ==> #[trigger] final(self).holding(h2, b) == old(self).holding(h2, b),
            final(self).assignee(b) == old(self).assignee(b),
            old(self).same_except(final(self), b),
    {
        let mut v = match self.hunters.remove(&b) {
            Some(v) => v,
            None => Vec::new(),
        };
        let ghost v0 = v@;
        v.push(h);
        proof {
            assert forall|x: AccountId| v@.contains(x) <==> (v0.contains(x) || x == h) by {
                if v@.contains(x) {
                    let k = choose|k: int| 0 <= k < v@.len() && v@[k] == x;
                    if k < v0.len() {
                        assert(v0[k] == x);
                    }
                }
                if v0.contains(x) {
                    let k = choose|k: int| 0 <= k < v0.len() && v0[k] == x;
                    assert(v@[k] == x);
                }
                assert(v@[v0.len() as int] == h);
            }
            assert(v@[v0.len() as int] == h);
            assert(v@.contains(h));
        }
        proof {
            assert(old(self).hunters@.contains_key(b) ==> v0 == old(self).hunters@[b]@);
            assert(!old(self).hunters@.contains_key(b) ==> v0 == Seq::<AccountId>::empty());
        }
        self.hunters.insert(b, v);
        let ghost mid = *self;
        self.put_holding(h, b, Some(HunterBountyState::Hunting));
        proof {
            assert forall|h2: AccountId, b2: BountyId| !(h2 == h && b2 == b) implies #[trigger] self.holding(h2, b2) == old(self).holding(h2, b2) by {
                assert(self.holding(h2, b2) == mid.holding(h2, b2));
            }
            assert forall|b2: BountyId, h2: AccountId| !(h2 == h && b2 == b) implies #[trigger] self.hunting(b2, h2) == old(self).hunting(b2, h2) by {
                if b2 == b {
                    assert(self.hunters@[b]@ == v@);
                    assert(v@.contains(h2) == v0.contains(h2));
                } else {
                    assert(self.hunters@[b2] == old(self).hunters@[b2]);
                }
            }
            assert(self.hunters@[b]@ == v@);
            assert(self.hunting(b, h));
            assert(self.hunters@ == old(self).hunters@.remove(b).insert(b, v));
            assert forall|b2: BountyId| #[trigger] self.assignee(b2) is Some implies self.holding(
                self.assignee(b2).unwrap(),
                b2,
            ) == Some(HunterBountyState::Processing) by {
                let o = old(self).assignee(b2).unwrap();
                assert(old(self).holding(o, b2) == Some(HunterBountyState::Processing));
            }
            assert forall|b2: BountyId, h2: AccountId| #[trigger]
                self.holding(h2, b2) == Some(HunterBountyState::Processing) implies self.assignee(b2)
                == Some(h2) by {
                assert(old(self).holding(h2, b2) == Some(HunterBountyState::Processing));
            }
            assert forall|b2: BountyId, h2: AccountId|
                self.hunting(b2, h2) <==> self.holding(h2, b2) is Some by {
                assert(old(self).hunting(b2, h2) <==> old(self).holding(h2, b2) is Some);
                if b2 == b {
                    assert(self.hunters@[b]@ == v@);
                } else {
                    assert(self.hunters@[b2] == old(self).hunters@[b2]);
                }
            }
        }
    }

    /// Withdraws `h`, which is not the assignee, from the hunters of bounty `b`.
    pub fn remove_hunter(&mut self, b: BountyId, h: AccountId)
        requires
            old(self).wf(),
            old(self).hunting(b, h),
            old(self).assignee(b) != Some(h),
        ensures
            final(self).wf(),
            !final(self).hunting(b, h),
            final(self).holding(h, b) is None,
            final(self).count(h) == old(self).count(h) - 1,
            forall|h2: AccountId| h2 != h ==> #[trigger] final(self).count(h2) == old(self).count(h2),
            forall|h2: AccountId|
                h2 != h ==> #[trigger] final(self).hunting(b, h2) == old(self).hunting(b, h2),
            forall|h2: AccountId|
                h2 != h ==> #[trigger] final(self).holding(h2, b) == old(self).holding(h2, b),
            final(self).assignee(b) == old(self).assignee(b),
            old(self).same_except(final(self), b),
    {
        let v = match self.hunters.remove(&b) {
            Some(v) => v,
            None => Vec::new(),
        };
        let v2 = without(&v, h);
        self.hunters.insert(b, v2);
        proof {
            assert(old(self).holding(h, b) is Some);
        }
        self.put_holding(h, b, None);
        proof {
            assert forall|b2: BountyId| #[trigger] self.assignee(b2) is Some implies self.holding(
                self.assignee(b2).unwrap(),
                b2,
            ) == Some(HunterBountyState::Processing) by {
                let o = old(self).assignee(b2).unwrap();
                assert(old(self).holding(o, b2) == Some(HunterBountyState::Processing));
            }
            assert forall|b2: BountyId, h2: AccountId| #[trigger]
                self.holding(h2, b2) == Some(HunterBountyState::Processing) implies self.assignee(b2)
                == Some(h2) by {
                assert(old(self).holding(h2, b2) == Some(HunterBountyState::Processing));
            }
            assert forall|b2: BountyId, h2: AccountId|
                self.hunting(b2, h2) <==> self.holding(h2, b2) is Some by {
                assert(old(self).hunting(b2, h2) <==> old(self).holding(h2, b2) is Some);
            }
        }
    }

    /// Assigns bounty `b` to its hunter `h`; the former assignee goes back to
    /// hunting.
    pub fn assign(&mut self, b: BountyId, h: AccountId)
        requires
            old(self).wf(),
            old(self).hunting(b, h),
            old(self).assignee(b) != Some(h),
        ensures
            final(self).wf(),
            final(self).assignee(b) == Some(h),
            final(self).holding(h, b) == Some(HunterBountyState::Processing),
            forall|h2: AccountId|
                h2 != h ==> #[trigger] final(self).holding(h2, b) == if old(self).assignee(b) == Some(
                    h2,
                ) {
                    Some(HunterBountyState::Hunting)
                } else {
                    old(self).holding(h2, b)
                },
            forall|h2: AccountId| #[trigger] final(self).hunting(b, h2) == old(self).hunting(b, h2),
            forall|h2: AccountId| #[trigger] final(self).count(h2) == old(self).count(h2),
            old(self).same_except(final(self), b),
    {
        let prev = self.assignee_of(b);
        match prev {
            Some(o) => {
                proof {
                    assert(old(self).holding(o, b) == Some(HunterBountyState::Processing));
                }
                self.put_holding(o, b, Some(HunterBountyState::Hunting));
            },
            None => {},
        }
        proof {
            assert(self.hunters@ == old(self).hunters@);
            assert(self.assigned@ == old(self).assigned@);
            assert forall|h2: AccountId, b2: BountyId| #[trigger] self.holding(h2, b2) == if b2 == b
                && prev == Some(h2) {
                Some(HunterBountyState::Hunting)
            } else {
                old(self).holding(h2, b2)
            } by {}
            assert forall|h2: AccountId| #[trigger] self.count(h2) == old(self).count(h2) by {}
            assert(old(self).hunting(b, h));
            assert(old(self).holding(h, b) is Some);
            assert(self.holding(h, b) is Some);
        }
        let ghost mid = *self;
        self.put_holding(h, b, Some(HunterBountyState::Processing));
        proof {
            assert forall|h2: AccountId, b2: BountyId| !(h2 == h && b2 == b) implies #[trigger] self.holding(h2, b2) == mid.holding(h2, b2) by {}
        }
        let ghost mid2 = *self;
        self.assigned.insert(b, h);
        proof {
            assert(self.holdings == mid2.holdings);
            assert forall|h2: AccountId, b2: BountyId| #[trigger] self.holding(h2, b2) == mid2.holding(h2, b2) by {}
            assert forall|h2: AccountId| #[trigger] self.count(h2) == mid.count(h2) by {
                assert(self.count(h2) == mid2.count(h2));
            }
        }
        proof {
            assert(self.hunters@ == old(self).hunters@);
            assert(self.assigned@ == old(self).assigned@.insert(b, h));
            assert forall|h2: AccountId| #[trigger] self.hunting(b, h2) == old(self).hunting(b, h2) by {}
            assert forall|h2: AccountId| #[trigger] self.count(h2) == old(self).count(h2) by {}

            assert forall|b2: BountyId| #[trigger] self.assignee(b2) is Some implies self.holding(
                self.assignee(b2).unwrap(),
                b2,
            ) == Some(HunterBountyState::Processing) by {
                if b2 != b {
                    let o = old(self).assignee(b2).unwrap();
                    assert(old(self).holding(o, b2) == Some(HunterBountyState::Processing));
                }
            }
            assert forall|b2: BountyId, h2: AccountId| #[trigger]
                self.holding(h2, b2) == Some(HunterBountyState::Processing) implies self.assignee(b2)
                == Some(h2) by {
                if b2 != b {
                    assert(old(self).holding(h2, b2) == Some(HunterBountyState::Processing));
                } else if h2 != h {
                    assert(old(self).holding(h2, b2) == Some(HunterBountyState::Processing));
                }
            }
            assert forall|b2: BountyId, h2: AccountId|
                self.hunting(b2, h2) <==> self.holding(h2, b2) is Some by {
                assert(old(self).hunting(b2, h2) <==> old(self).holding(h2, b2) is Some);
            }
        }
    }

    /// Withdraws every hunter of bounty `b`, every holding of it, and its
    /// assignee.
    pub fn clear_hunters(&mut self, b: BountyId)
        requires
            old(self).wf(),
        ensures
            final(self).wf(),
            forall|h: AccountId| !#[trigger] final(self).hunting(b, h),
            forall|h: AccountId| #[trigger] final(self).holding(h, b) is None,
            forall|h: AccountId| #[trigger] final(self).count(h) <= old(self).count(h),
            final(self).assignee(b) is None,
            old(self).same_except(final(self), b),
    {
        self.assigned.remove(&b);
        match self.hunters.remove(&b) {
            Some(v) => {
                proof {
                    assert(v@.subrange(0, v@.len() as int) =~= v@);
                    assert forall|h: AccountId| #[trigger] self.holding(h, b) is Some implies v@.subrange(
                        0,
                        v@.len() as int,
                    ).contains(h) by {
                        assert(old(self).hunting(b, h) <==> old(self).holding(h, b) is Some);
                    }
                }
                let mut i: usize = 0;
                while i < v.len()
                    invariant
                        old(self).wf(),
                        i <= v@.len(),
                        old(self).hunters@.contains_key(b),
                        v@ == old(self).hunters@[b]@,
                        self.hunters@ == old(self).hunters@.remove(b),
                        self.assigned@ == old(self).assigned@.remove(b),
                        forall|h: AccountId| #[trigger]
                            self.holding(h, b) is Some ==> v@.subrange(i as int, v@.len() as int).contains(h),
                        forall|h: AccountId, b2: BountyId|
                            b2 != b ==> #[trigger] self.holding(h, b2) == old(self).holding(h, b2),
                        forall|h: AccountId| #[trigger] self.holding(h, b) is Some ==> old(self).holding(h, b) is Some,
                        forall|h: AccountId| #[trigger] self.count(h) <= old(self).count(h),
                    decreases v@.len() - i,
                {
                    let h = v[i];
                    proof {
                        assert forall|x: AccountId| #[trigger]
                            self.holding(x, b) is Some && x != h implies v@.subrange(i + 1, v@.len() as int).contains(x) by {
                            let k = choose|k: int| 0 <= k < v@.len() - i && v@.subrange(i as int, v@.len() as int)[k] == x;
                            assert(k != 0);
                            assert(v@.subrange(i + 1, v@.len() as int)[k - 1] == x);
                        }
                    }
                    self.put_holding(h, b, None);
                    i = i + 1;
                }
                proof {
                    assert forall|h: AccountId| #[trigger] self.holding(h, b) is None by {
                        assert(v@.subrange(v@.len() as int, v@.len() as int).len() == 0);
                    }
                }
            },
            None => {
                proof {
                    assert forall|h: AccountId| #[trigger] self.holding(h, b) is None by {
                        assert(!old(self).hunting(b, h));
                    }
                }
            },
        }
        proof {
            assert forall|b2: BountyId| #[trigger] self.assignee(b2) is Some implies self.holding(
                self.assignee(b2).unwrap(),
                b2,
            ) == Some(HunterBountyState::Processing) by {
                let o = old(self).assignee(b2).unwrap();
                assert(old(self).holding(o, b2) == Some(HunterBountyState::Processing));
            }
            assert forall|b2: BountyId, h2: AccountId| #[trigger]
                self.holding(h2, b2) == Some(HunterBountyState::Processing) implies self.assignee(b2)
                == Some(h2) by {
                if b2 != b {
                    assert(old(self).holding(h2, b2) == Some(HunterBountyState::Processing));
                }
            }
            assert forall|b2: BountyId, h2: AccountId|
                self.hunting(b2, h2) <==> self.holding(h2, b2) is Some by {
                if b2 != b {
                    assert(old(self).hunting(b2, h2) <==> old(self).holding(h2, b2) is Some);
                }
            }
        }
    }

}

} // verus!
