use vstd::prelude::*;

use crate::primitives::AccountId;
use crate::tracker::{holds, without};

verus! {

/// The byte of `#`: as a call name, it stands for every call of a pallet.
pub const PALLET_MARK: u8 = 35;

/// The name of the pallet that is never paused: `Sudo`.
pub open spec fn always_allowed() -> Seq<u8> {
    seq![83u8, 117u8, 100u8, 111u8]
}

/// The call name that stands for every call of a pallet.
pub open spec fn pallet_mark() -> Seq<u8> {
    seq![PALLET_MARK]
}

/// Whether some entry of `s` between `lo` and `hi` pairs `p` with `c`.
pub open spec fn holds_pair(s: Seq<(Vec<u8>, Vec<u8>)>, p: Seq<u8>, c: Seq<u8>, lo: int, hi: int) -> bool {
    exists|j: int| lo <= j < hi && 0 <= j < s.len() && #[trigger] s[j].0@ == p && s[j].1@ == c
}

/// Which call of which pallet is made.
pub struct CallMetadata {
    pub function_name: Vec<u8>,
    pub pallet_name: Vec<u8>,
}

/// Whether `a` and `b` hold the same bytes.
pub fn bytes_eq(a: &[u8], b: &[u8]) -> (r: bool)
    ensures
        r == (a@ == b@),
{
    if a.len() != b.len() {
        return false;
    }
    let mut i: usize = 0;
    while i < a.len()
        invariant
            a@.len() == b@.len(),
            i <= a@.len(),
            forall|j: int| 0 <= j < i ==> a@[j] == b@[j],
        decreases a@.len() - i,
    {
        if a[i] != b[i] {
            return false;
        }
        i = i + 1;
    }
    proof {
        assert(a@ =~= b@);
    }
    true
}

fn sudo_name() -> (r: Vec<u8>)
    ensures
        r@ == always_allowed(),
{
    let r: Vec<u8> = vec![83u8, 117u8, 100u8, 111u8];
    proof {
        assert(r@ =~= always_allowed());
    }
    r
}

fn mark_name() -> (r: Vec<u8>)
    ensures
        r@ == pallet_mark(),
{
    let r: Vec<u8> = vec![PALLET_MARK];
    proof {
        assert(r@ =~= pallet_mark());
    }
    r
}

/// The switches of the chain: paused pallets and calls, blocked accounts,
/// and the members of the council.
pub struct Module {
    paused: Vec<(Vec<u8>, Vec<u8>)>,
    blocked: Vec<AccountId>,
    council: Vec<AccountId>,
}

impl Module {
    /// Whether call `call` of pallet `pallet` is paused; `call` may be the
    /// pallet mark.
    pub closed spec fn marked(&self, pallet: Seq<u8>, call: Seq<u8>) -> bool {
        exists|i: int|
            0 <= i < self.paused@.len() && #[trigger] self.paused@[i].0@ == pallet
                && self.paused@[i].1@ == call
    }

    /// Whether `a` is blocked.
    pub closed spec fn is_blocked(&self, a: AccountId) -> bool {
        self.blocked@.contains(a)
    }

    /// The members of the council.
    pub closed spec fn members(&self) -> Seq<AccountId> {
        self.council@
    }

    /// Nothing paused, nobody blocked, and the council `council`.
    pub fn new(council: Vec<AccountId>) -> (r: Module)
        ensures
            forall|p: Seq<u8>, c: Seq<u8>| !#[trigger] r.marked(p, c),
            forall|a: AccountId| !#[trigger] r.is_blocked(a),
            r.members() == council@,
    {
        Module { paused: Vec::new(), blocked: Vec::new(), council }
    }

    fn find(&self, pallet: &[u8], call: &[u8]) -> (r: Option<usize>)
        ensures
            match r {
                Some(i) => i < self.paused@.len() && self.paused@[i as int].0@ == pallet@
                    && self.paused@[i as int].1@ == call@,
                None => !self.marked(pallet@, call@),
            },
    {
        let mut i: usize = 0;
        while i < self.paused.len()
            invariant
                i <= self.paused@.len(),
                forall|j: int|
                    0 <= j < i ==> !(#[trigger] self.paused@[j].0@ == pallet@ && self.paused@[j].1@
                        == call@),
            decreases self.paused@.len() - i,
        {
            if bytes_eq(self.paused[i].0.as_slice(), pallet) && bytes_eq(
                self.paused[i].1.as_slice(),
                call,
            ) {
                return Some(i);
            }
            i = i + 1;
        }
        None
    }

    /// Whether the call that `metadata` names is paused: the pallet `Sudo`
    /// never is; any other is where its whole pallet or the call itself was
    /// paused.
    pub fn is_paused(&self, metadata: &CallMetadata) -> (r: bool)
        ensures
            r == (metadata.pallet_name@ != always_allowed() && (self.marked(
                metadata.pallet_name@,
                pallet_mark(),
            ) || self.marked(metadata.pallet_name@, metadata.function_name@))),
    {
        let sudo = sudo_name();
        if bytes_eq(metadata.pallet_name.as_slice(), sudo.as_slice()) {
            return false;
        }
        let mark = mark_name();
        if self.find(metadata.pallet_name.as_slice(), mark.as_slice()).is_some() {
            return true;
        }
        self.find(metadata.pallet_name.as_slice(), metadata.function_name.as_slice()).is_some()
    }

    /// Pauses or resumes call `call` of pallet `pallet`, or the whole pallet
    /// where `call` is `None`.
    pub fn modify_paused(&mut self, pallet: Vec<u8>, call: Option<Vec<u8>>, paused: bool)
        ensures
            ({
                let key = match call {
                    Some(c) => c@,
                    None => pallet_mark(),
                };
                &&& final(self).marked(pallet@, key) == paused
                &&& forall|p: Seq<u8>, c: Seq<u8>|
                    !(p == pallet@ && c == key) ==> #[trigger] final(self).marked(p, c) == old(self).marked(p, c)
            }),
            forall|a: AccountId| #[trigger] final(self).is_blocked(a) == old(self).is_blocked(a),
            final(self).members() == old(self).members(),
    {
        let key = match call {
            Some(c) => c,
            None => mark_name(),
        };
        if paused {
            if self.find(pallet.as_slice(), key.as_slice()).is_none() {
                let ghost before = self.paused@;
                self.paused.push((pallet, key));
                proof {
                    assert forall|p: Seq<u8>, c: Seq<u8>| !(p == pallet@ && c == key@) implies #[trigger] self.marked(p, c) == old(self).marked(p, c) by {
                        if self.marked(p, c) {
                            let i = choose|i: int| 0 <= i < self.paused@.len() && #[trigger] self.paused@[i].0@ == p && self.paused@[i].1@ == c;
                            assert(i < before.len());
                            assert(before[i] == self.paused@[i]);
                        }
                        if old(self).marked(p, c) {
                            let i = choose|i: int| 0 <= i < before.len() && #[trigger] before[i].0@ == p && before[i].1@ == c;
                            assert(self.paused@[i] == before[i]);
                        }
                    }
                    let last = self.paused@.len() - 1;
                    assert(self.paused@[last].0@ == pallet@ && self.paused@[last].1@ == key@);
                }
            }
        } else {
            let mut rest: Vec<(Vec<u8>, Vec<u8>)> = Vec::new();
            std::mem::swap(&mut rest, &mut self.paused);
            let ghost before = rest@;
            let mut kept: Vec<(Vec<u8>, Vec<u8>)> = Vec::new();
            while rest.len() > 0
                invariant
                    rest@.len() <= before.len(),
                    rest@ == before.subrange(0, rest@.len() as int),
                    forall|p: Seq<u8>, c: Seq<u8>|
                        #[trigger] holds_pair(kept@, p, c, 0, kept@.len() as int) <==> (!(p == pallet@ && c
                            == key@) && holds_pair(before, p, c, rest@.len() as int, before.len() as int)),
                decreases rest@.len(),
            {
                let ghost n = rest@.len() as int;
                let ghost kept0 = kept@;
                let popped = rest.pop();
                let entry = popped.unwrap();
                proof {
                    assert(entry == before[n - 1]);
                    assert(rest@ =~= before.subrange(0, n - 1));
                }
                let same = bytes_eq(entry.0.as_slice(), pallet.as_slice()) && bytes_eq(
                    entry.1.as_slice(),
                    key.as_slice(),
                );
                if !same {
                    kept.push(entry);
                }
                proof {
                    assert forall|p: Seq<u8>, c: Seq<u8>|
                        #[trigger] holds_pair(kept@, p, c, 0, kept@.len() as int) <==> (!(p == pallet@ && c
                            == key@) && holds_pair(before, p, c, n - 1, before.len() as int)) by {
                        if holds_pair(kept@, p, c, 0, kept@.len() as int) {
                            let j = choose|j: int| 0 <= j < kept@.len() && #[trigger] kept@[j].0@ == p && kept@[j].1@ == c;
                            if j < kept0.len() {
                                assert(kept0[j] == kept@[j]);
                                assert(holds_pair(kept0, p, c, 0, kept0.len() as int));
                            }
                        }
                        if holds_pair(kept0, p, c, 0, kept0.len() as int) {
                            let j = choose|j: int| 0 <= j < kept0.len() && #[trigger] kept0[j].0@ == p && kept0[j].1@ == c;
                            assert(kept@[j] == kept0[j]);
                        }
                        if holds_pair(before, p, c, n - 1, before.len() as int) && !(p == pallet@ && c == key@) {
                            let j = choose|j: int| n - 1 <= j < before.len() && #[trigger] before[j].0@ == p && before[j].1@ == c;
                            if j == n - 1 {
                                assert(kept@[kept@.len() - 1] == entry);
                            } else {
                                assert(holds_pair(before, p, c, n, before.len() as int));
                            }
                        }
                        if holds_pair(before, p, c, n, before.len() as int) {
                            let j = choose|j: int| n <= j < before.len() && #[trigger] before[j].0@ == p && before[j].1@ == c;
                            assert(n - 1 <= j);
                        }
                    }
                }
            }
            self.paused = kept;
            proof {
                assert(rest@.len() == 0);
                assert forall|p: Seq<u8>, c: Seq<u8>| #[trigger] old(self).marked(p, c) == holds_pair(before, p, c, 0, before.len() as int) by {
                    if old(self).marked(p, c) {
                        let j = choose|j: int| 0 <= j < before.len() && #[trigger] before[j].0@ == p && before[j].1@ == c;
                        assert(holds_pair(before, p, c, 0, before.len() as int));
                    }
                }
                assert forall|p: Seq<u8>, c: Seq<u8>| #[trigger] self.marked(p, c) == holds_pair(self.paused@, p, c, 0, self.paused@.len() as int) by {
                    if self.marked(p, c) {
                        let j = choose|j: int| 0 <= j < self.paused@.len() && #[trigger] self.paused@[j].0@ == p && self.paused@[j].1@ == c;
                        assert(holds_pair(self.paused@, p, c, 0, self.paused@.len() as int));
                    }
                }
            }
        }
    }

    fn copy_of(v: &Vec<AccountId>) -> (r: Vec<AccountId>)
        ensures
            r@ == v@,
    {
        let mut r: Vec<AccountId> = Vec::new();
        let mut i: usize = 0;
        while i < v.len()
            invariant
                i <= v@.len(),
                r@ == v@.subrange(0, i as int),
            decreases v@.len() - i,
        {
            r.push(v[i]);
            i = i + 1;
            proof {
                assert(r@ =~= v@.subrange(0, i as int));
            }
        }
        proof {
            assert(v@.subrange(0, v@.len() as int) =~= v@);
        }
        r
    }

    /// Blocks `who`, or lifts its block.
    pub fn modify_blocked_list(&mut self, who: AccountId, block: bool)
        ensures
            final(self).is_blocked(who) == block,
            forall|a: AccountId| a != who ==> #[trigger] final(self).is_blocked(a) == old(self).is_blocked(a),
            forall|p: Seq<u8>, c: Seq<u8>| #[trigger] final(self).marked(p, c) == old(self).marked(p, c),
            final(self).members() == old(self).members(),
    {
        if block {
            if !holds(&self.blocked, who) {
                let ghost before = self.blocked@;
                self.blocked.push(who);
                proof {
                    assert(self.blocked@[before.len() as int] == who);
                    assert forall|a: AccountId| a != who implies #[trigger] self.blocked@.contains(a) == before.contains(a) by {
                        if self.blocked@.contains(a) {
                            let k = choose|k: int| 0 <= k < self.blocked@.len() && self.blocked@[k] == a;
                            assert(before[k] == a);
                        }
                        if before.contains(a) {
                            let k = choose|k: int| 0 <= k < before.len() && before[k] == a;
                            assert(self.blocked@[k] == a);
                        }
                    }
                }
            }
        } else {
            self.blocked = without(&self.blocked, who);
        }
        proof {
            assert(self.paused@ == old(self).paused@);
            assert forall|p: Seq<u8>, c: Seq<u8>| #[trigger] self.marked(p, c) == old(self).marked(p, c) by {
                if old(self).marked(p, c) {
                    let j = choose|j: int| 0 <= j < old(self).paused@.len() && #[trigger] old(self).paused@[j].0@ == p && old(self).paused@[j].1@ == c;
                    assert(self.paused@[j].0@ == p);
                }
            }
        }
    }

    /// The blocked accounts.
    pub fn blocked_list(&self) -> (r: Vec<AccountId>)
        ensures
            forall|a: AccountId| r@.contains(a) <==> self.is_blocked(a),
    {
        Self::copy_of(&self.blocked)
    }

    /// The members of the council.
    pub fn sorted_members(&self) -> (r: Vec<AccountId>)
        ensures
            r@ == self.members(),
    {
        Self::copy_of(&self.council)
    }

    /// Whether `who` sits on the council.
    pub fn is_council_member(&self, who: AccountId) -> (r: bool)
        ensures
            r == self.members().contains(who),
    {
        holds(&self.council, who)
    }
}

} // verus!
