//! Contract storage. The system storage maps 256-bit slots to 256-bit
//! values; account storage maps an account, its space and a byte key to a
//! 256-bit value. A slot that was never written reads as zero.

use vstd::prelude::*;
use crate::context::Space;
use crate::uint::{Address, U256};

verus! {

/// The value that slot `k` of `m` reads as.
pub open spec fn read(m: Map<nat, nat>, k: nat) -> nat {
    if m.contains_key(k) {
        m[k]
    } else {
        0
    }
}

/// Slot-to-value storage.
pub struct SystemStorage {
    entries: Vec<(U256, U256)>,
    contents: Ghost<Map<nat, nat>>,
}

impl View for SystemStorage {
    type V = Map<nat, nat>;

    closed spec fn view(&self) -> Map<nat, nat> {
        self.contents@
    }
}

impl SystemStorage {
    /// The entries hold exactly the view, each slot once.
    pub closed spec fn wf(&self) -> bool {
        &&& forall|i: int|
            0 <= i < self.entries@.len() ==> {
                &&& #[trigger] self.contents@.contains_key(self.entries@[i].0@)
                &&& self.contents@[self.entries@[i].0@] == self.entries@[i].1@
            }
        &&& forall|k: nat|
            #[trigger] self.contents@.contains_key(k) ==> exists|i: int|
                0 <= i < self.entries@.len() && #[trigger] self.entries@[i].0@ == k
        &&& forall|i: int, j: int|
            0 <= i < j < self.entries@.len() ==> #[trigger] self.entries@[i].0@
                != #[trigger] self.entries@[j].0@
    }

    /// An empty storage: every slot reads as zero.
    pub fn new() -> (r: SystemStorage)
        ensures
            r.wf(),
            r@ == Map::<nat, nat>::empty(),
    {
        SystemStorage { entries: Vec::new(), contents: Ghost(Map::empty()) }
    }

    /// The value at `key` (zero where nothing was written).
    pub fn get(&self, key: &U256) -> (r: U256)
        requires
            self.wf(),
        ensures
            r@ == read(self@, key@),
    {
        let mut i: usize = 0;
        while i < self.entries.len()
            invariant
                self.wf(),
                i <= self.entries@.len(),
                forall|j: int| 0 <= j < i ==> self.entries@[j].0@ != key@,
            decreases self.entries@.len() - i,
        {
            if self.entries[i].0.eq(key) {
                return self.entries[i].1;
            }
            i = i + 1;
        }
        proof {
            if self@.contains_key(key@) {
                let w = choose|w: int| 0 <= w < self.entries@.len() && self.entries@[w].0@ == key@;
                assert(self.entries@[w].0@ == key@);
            }
        }
        U256::zero()
    }

    /// Writes `value` at `key`.
    #[verifier::spinoff_prover]
    pub fn set(&mut self, key: U256, value: U256)
        requires
            old(self).wf(),
        ensures
            final(self).wf(),
            final(self)@ == old(self)@.insert(key@, value@),
    {
        let mut i: usize = 0;
        while i < self.entries.len()
            invariant
                self.wf(),
                i <= self.entries@.len(),
                *self == *old(self),
                forall|j: int| 0 <= j < i ==> self.entries@[j].0@ != key@,
            decreases self.entries@.len() - i,
        {
            if self.entries[i].0.eq(&key) {
                let ghost old_entries = self.entries@;
                self.entries.set(i, (key, value));
                self.contents = Ghost(self.contents@.insert(key@, value@));
                assert forall|k: nat| #[trigger] self.contents@.contains_key(k) implies exists|w: int|
                    0 <= w < self.entries@.len() && #[trigger] self.entries@[w].0@ == k by {
                    if k == key@ {
                        assert(self.entries@[i as int].0@ == k);
                    } else {
                        let w = choose|w: int| 0 <= w < old_entries.len() && old_entries[w].0@ == k;
                        assert(self.entries@[w].0@ == k);
                    }
                }
                return;
            }
            i = i + 1;
        }
        let ghost old_entries = self.entries@;
        self.entries.push((key, value));
        self.contents = Ghost(self.contents@.insert(key@, value@));
        assert forall|k: nat| #[trigger] self.contents@.contains_key(k) implies exists|w: int|
            0 <= w < self.entries@.len() && #[trigger] self.entries@[w].0@ == k by {
            if k == key@ {
                assert(self.entries@[old_entries.len() as int].0@ == k);
            } else {
                let w = choose|w: int| 0 <= w < old_entries.len() && old_entries[w].0@ == k;
                assert(self.entries@[w].0@ == k);
            }
        }
    }
}

/// The value that `key` of `m` reads as in account storage.
pub open spec fn read_account(m: Map<(nat, Space, Seq<u8>), nat>, key: (nat, Space, Seq<u8>)) -> nat {
    if m.contains_key(key) {
        m[key]
    } else {
        0
    }
}

/// Whether two byte strings are equal.
pub fn bytes_eq(a: &[u8], b: &[u8]) -> (r: bool)
    ensures
        r == (a@ == b@),
{
    if a.len() != b.len() {
        return false;
    }
    let mut i: usize = 0;
    while i < a.len()
        invariant
            a@.len() == b@.len(),
            i <= a@.len(),
            forall|j: int| 0 <= j < i ==> a@[j] == b@[j],
        decreases a@.len() - i,
    {
        if a[i] != b[i] {
            return false;
        }
        i = i + 1;
    }
    assert(a@ =~= b@);
    true
}

/// One account-storage entry: account, space, key and value.
pub struct AccountEntry {
    account: Address,
    space: Space,
    key: Vec<u8>,
    value: U256,
}

impl AccountEntry {
    pub closed spec fn slot(&self) -> (nat, Space, Seq<u8>) {
        (self.account@, self.space, self.key@)
    }
}

/// Storage of the accounts, keyed by account, space and byte key.
pub struct AccountStorage {
    entries: Vec<AccountEntry>,
    contents: Ghost<Map<(nat, Space, Seq<u8>), nat>>,
}

impl View for AccountStorage {
    type V = Map<(nat, Space, Seq<u8>), nat>;

    closed spec fn view(&self) -> Map<(nat, Space, Seq<u8>), nat> {
        self.contents@
    }
}

impl AccountStorage {
    /// The entries hold exactly the view, each slot once.
    pub closed spec fn wf(&self) -> bool {
        &&& forall|i: int|
            0 <= i < self.entries@.len() ==> {
                &&& #[trigger] self.contents@.contains_key(self.entries@[i].slot())
                &&& self.contents@[self.entries@[i].slot()] == self.entries@[i].value@
            }
        &&& forall|k: (nat, Space, Seq<u8>)|
            #[trigger] self.contents@.contains_key(k) ==> exists|i: int|
                0 <= i < self.entries@.len() && #[trigger] self.entries@[i].slot() == k
        &&& forall|i: int, j: int|
            0 <= i < j < self.entries@.len() ==> #[trigger] self.entries@[i].slot()
                != #[trigger] self.entries@[j].slot()
    }

    /// An empty storage: every slot reads as zero.
    pub fn new() -> (r: AccountStorage)
        ensures
            r.wf(),
            r@ == Map::<(nat, Space, Seq<u8>), nat>::empty(),
    {
        AccountStorage { entries: Vec::new(), contents: Ghost(Map::empty()) }
    }

    fn matches(entry: &AccountEntry, account: &Address, space: Space, key: &[u8]) -> (r: bool)
        ensures
            r == (entry.slot() == (account@, space, key@)),
    {
        entry.account.eq(account) && entry.space == space && bytes_eq(entry.key.as_slice(), key)
    }

    /// The value at `key` of `account` in `space` (zero where nothing was written).
    pub fn get(&self, account: &Address, space: Space, key: &[u8]) -> (r: U256)
        requires
            self.wf(),
        ensures
            r@ == read_account(self@, (account@, space, key@)),
    {
        let ghost slot = (account@, space, key@);
        let mut i: usize = 0;
        while i < self.entries.len()
            invariant
                self.wf(),
                slot == (account@, space, key@),
                i <= self.entries@.len(),
                forall|j: int| 0 <= j < i ==> self.entries@[j].slot() != slot,
            decreases self.entries@.len() - i,
        {
            if Self::matches(&self.entries[i], account, space, key) {
                return self.entries[i].value;
            }
            i = i + 1;
        }
        proof {
            if self@.contains_key(slot) {
                let w = choose|w: int| 0 <= w < self.entries@.len() && self.entries@[w].slot() == slot;
                assert(self.entries@[w].slot() == slot);
            }
        }
        U256::zero()
    }

    /// Writes `value` at `key` of `account` in `space`.
    #[verifier::spinoff_prover]
    pub fn set(&mut self, account: Address, space: Space, key: Vec<u8>, value: U256)
        requires
            old(self).wf(),
        ensures
            final(self).wf(),
            final(self)@ == old(self)@.insert((account@, space, key@), value@),
    {
        let ghost slot = (account@, space, key@);
        let mut i: usize = 0;
        while i < self.entries.len()
            invariant
                self.wf(),
                slot == (account@, space, key@),
                i <= self.entries@.len(),
                *self == *old(self),
                forall|j: int| 0 <= j < i ==> self.entries@[j].slot() != slot,
            decreases self.entries@.len() - i,
        {
            if Self::matches(&self.entries[i], &account, space, key.as_slice()) {
                let ghost old_entries = self.entries@;
                self.entries.set(i, AccountEntry { account, space, key, value });
                self.contents = Ghost(self.contents@.insert(slot, value@));
                assert forall|j: int| 0 <= j < self.entries@.len() implies #[trigger] self.entries@[j].slot()
                    == old_entries[j].slot() by {
                    if j == i {
                        assert(self.entries@[j].slot() == slot);
                    }
                }
                assert forall|k: (nat, Space, Seq<u8>)| #[trigger] self.contents@.contains_key(k) implies exists|w: int|
                    0 <= w < self.entries@.len() && #[trigger] self.entries@[w].slot() == k by {
                    if k == slot {
                        assert(self.entries@[i as int].slot() == k);
                    } else {
                        let w = choose|w: int| 0 <= w < old_entries.len() && old_entries[w].slot() == k;
                        assert(self.entries@[w].slot() == k);
                    }
                }
                return;
            }
            i = i + 1;
        }
        let ghost old_entries = self.entries@;
        self.entries.push(AccountEntry { account, space, key, value });
        self.contents = Ghost(self.contents@.insert(slot, value@));
        assert forall|k: (nat, Space, Seq<u8>)| #[trigger] self.contents@.contains_key(k) implies exists|w: int|
            0 <= w < self.entries@.len() && #[trigger] self.entries@[w].slot() == k by {
            if k == slot {
                assert(self.entries@[old_entries.len() as int].slot() == k);
            } else {
                let w = choose|w: int| 0 <= w < old_entries.len() && old_entries[w].slot() == k;
                assert(self.entries@[w].slot() == k);
            }
        }
    }
}

} // verus!
