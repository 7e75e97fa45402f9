use vstd::prelude::*;

use crate::state::{Vault, VaultRecord, Participant, UserAccount, Fulfillment};
use crate::store::{seq_has, seq_index_of, seq_key_unique, lemma_seq_index, lemma_seq_update,
    lemma_seq_push};

verus! {

/// The world an instruction runs against: the ledger clock, the record store
/// (vaults and participants, each addressed by a deterministic derived key),
/// user balances, and the fulfillments the external randomness oracle has
/// delivered so far.
///
/// The substrate applies each instruction atomically and in series, so every
/// instruction is a method that either performs its whole effect or returns
/// an error and leaves the world exactly as it was.
pub struct World {
    /// The ledger clock; only ever moves forward.
    pub slot: u64,
    /// At most one vault per authority.
    pub vaults: Vec<VaultRecord>,
    /// At most one participant per (vault authority, user) pair.
    pub participants: Vec<Participant>,
    /// At most one ledger account per user.
    pub accounts: Vec<UserAccount>,
    /// At most one fulfillment per randomness handle.
    pub fulfillments: Vec<Fulfillment>,
}

/// The instruction left the world exactly as it found it: a failed
/// instruction has no effect at all.
pub open spec fn unchanged(pre: World, post: World) -> bool {
    &&& post.slot == pre.slot
    &&& post.vaults@ == pre.vaults@
    &&& post.participants@ == pre.participants@
    &&& post.accounts@ == pre.accounts@
    &&& post.fulfillments@ == pre.fulfillments@
}

/// Every vault other than the one keyed by `a` is exactly as it was.
pub open spec fn vault_frame(pre: World, post: World, a: u64) -> bool {
    forall|b: u64|
        b != a ==> #[trigger] post.has_vault(b) == pre.has_vault(b) && (pre.has_vault(b)
            ==> post.vault_rec(b) == pre.vault_rec(b))
}

/// Every account other than `user`'s holds exactly what it held.
pub open spec fn account_frame(pre: World, post: World, user: u64) -> bool {
    forall|u2: u64| u2 != user ==> #[trigger] post.balance_of(u2) == pre.balance_of(u2)
}

/// A vault record's derived key is determined by its authority.
pub open spec fn vault_key_fn() -> spec_fn(VaultRecord) -> u64 {
    |r: VaultRecord| r.vault.vault_authority
}

/// A participant record's derived key is determined by the owning vault's
/// authority together with the owning user.
pub open spec fn participant_key_fn() -> spec_fn(Participant) -> (u64, u64) {
    |p: Participant| (p.vault, p.user)
}

/// A ledger account is addressed by its user.
pub open spec fn account_key_fn() -> spec_fn(UserAccount) -> u64 {
    |c: UserAccount| c.user
}

/// A fulfillment is addressed by the handle the request was made under.
pub open spec fn fulfillment_key_fn() -> spec_fn(Fulfillment) -> u64 {
    |f: Fulfillment| f.handle
}

impl World {
    pub open spec fn has_vault(self, a: u64) -> bool {
        seq_has(self.vaults@, vault_key_fn(), a)
    }

    pub open spec fn vault_index(self, a: u64) -> int {
        seq_index_of(self.vaults@, vault_key_fn(), a)
    }

    /// The record the key derived from `a` addresses.
    pub open spec fn vault_rec(self, a: u64) -> VaultRecord {
        self.vaults@[self.vault_index(a)]
    }

    pub open spec fn vault_of(self, a: u64) -> Vault {
        self.vault_rec(a).vault
    }

    /// The balance held by the vault's account: escrowed deposits plus its
    /// storage reservation.  Zero if no vault exists for `a`.
    pub open spec fn vault_balance(self, a: u64) -> int {
        if self.has_vault(a) {
            self.vault_rec(a).balance as int
        } else {
            0
        }
    }

    pub open spec fn has_participant(self, a: u64, user: u64) -> bool {
        seq_has(self.participants@, participant_key_fn(), (a, user))
    }

    pub open spec fn participant_index(self, a: u64, user: u64) -> int {
        seq_index_of(self.participants@, participant_key_fn(), (a, user))
    }

    pub open spec fn participant_of(self, a: u64, user: u64) -> Participant {
        self.participants@[self.participant_index(a, user)]
    }

    pub open spec fn has_account(self, user: u64) -> bool {
        seq_has(self.accounts@, account_key_fn(), user)
    }

    pub open spec fn account_index(self, user: u64) -> int {
        seq_index_of(self.accounts@, account_key_fn(), user)
    }

    /// A user's available balance; a user with no account holds nothing.
    pub open spec fn balance_of(self, user: u64) -> int {
        if self.has_account(user) {
            self.accounts@[self.account_index(user)].balance as int
        } else {
            0
        }
    }

    pub open spec fn has_fulfillment(self, handle: u64) -> bool {
        seq_has(self.fulfillments@, fulfillment_key_fn(), handle)
    }

    pub open spec fn fulfillment_index(self, handle: u64) -> int {
        seq_index_of(self.fulfillments@, fulfillment_key_fn(), handle)
    }

    /// The randomness the oracle delivered for `handle`.
    pub open spec fn fulfillment_value(self, handle: u64) -> Seq<u8> {
        self.fulfillments@[self.fulfillment_index(handle)].value@
    }

    /// What always holds of a live vault record.
    pub open spec fn vault_valid(self, v: Vault) -> bool {
        &&& v.lottery_id <= self.slot
        &&& v.commit_slot <= self.slot
        &&& (v.drawn ==> v.winner_id < v.participant_count)
        &&& (v.claimed ==> v.drawn)
    }

    /// What always holds of a live participant record: it is initialized, and
    /// while its vault lives and is still in the participant's round, its
    /// draw slot lies below the vault's participant count.
    pub open spec fn participant_valid(self, p: Participant) -> bool {
        &&& p.lottery_id <= self.slot
        &&& p.is_initialized
        &&& (self.has_vault(p.vault) && p.lottery_id == self.vault_of(p.vault).lottery_id
            ==> p.id < self.vault_of(p.vault).participant_count)
    }

    /// Two live participants of the same vault round never share a draw slot.
    pub open spec fn participant_ids_distinct(self) -> bool {
        forall|i: int, j: int|
            #![trigger self.participants@[i], self.participants@[j]]
            0 <= i < self.participants@.len() && 0 <= j < self.participants@.len() && i != j
                && self.participants@[i].vault == self.participants@[j].vault
                && self.participants@[i].lottery_id == self.participants@[j].lottery_id
                ==> self.participants@[i].id != self.participants@[j].id
    }

    /// Well-formedness: derived keys are collision-free in every store, and
    /// each record satisfies its own invariant.
    pub open spec fn wf(self) -> bool {
        &&& seq_key_unique(self.vaults@, vault_key_fn())
        &&& seq_key_unique(self.participants@, participant_key_fn())
        &&& seq_key_unique(self.accounts@, account_key_fn())
        &&& seq_key_unique(self.fulfillments@, fulfillment_key_fn())
        &&& (forall|i: int|
            0 <= i < self.vaults@.len() ==> self.vault_valid(#[trigger] self.vaults@[i].vault))
        &&& (forall|i: int|
            0 <= i < self.participants@.len() ==> self.participant_valid(
                #[trigger] self.participants@[i],
            ))
        &&& self.participant_ids_distinct()
        &&& (forall|i: int|
            0 <= i < self.fulfillments@.len() ==> (#[trigger] self.fulfillments@[i]).value@.len()
                >= 8)
    }

    /// An empty world: no records, no balances, clock at zero.
    pub fn new() -> (w: World)
        ensures
            w.wf(),
            w.slot == 0,
            w.vaults@.len() == 0,
            w.participants@.len() == 0,
            w.accounts@.len() == 0,
            w.fulfillments@.len() == 0,
    {
        World {
            slot: 0,
            vaults: Vec::new(),
            participants: Vec::new(),
            accounts: Vec::new(),
            fulfillments: Vec::new(),
        }
    }

    /// Index of the vault record addressed by the key derived from `a`.
    pub(crate) fn find_vault(&self, a: u64) -> (r: Option<usize>)
        requires
            seq_key_unique(self.vaults@, vault_key_fn()),
        ensures
            match r {
                Some(i) => i < self.vaults@.len() && self.has_vault(a) && self.vault_index(a)
                    == i as int,
                None => !self.has_vault(a),
            },
    {
        let mut i: usize = 0;
        while i < self.vaults.len()
            invariant
                seq_key_unique(self.vaults@, vault_key_fn()),
                i <= self.vaults@.len(),
                forall|j: int| 0 <= j < i ==> (#[trigger] self.vaults@[j]).vault.vault_authority != a,
            decreases self.vaults@.len() - i,
        {
            if self.vaults[i].vault.vault_authority == a {
                proof {
                    let key = vault_key_fn();
                    assert(key(self.vaults@[i as int]) == a);
                    lemma_seq_index(self.vaults@, key, i as int);
                }
                return Some(i);
            }
            i += 1;
        }
        proof {
            let key = vault_key_fn();
            if self.has_vault(a) {
                let j = self.vault_index(a);
                assert(0 <= j < self.vaults@.len() && key(self.vaults@[j]) == a);
                assert(self.vaults@[j].vault.vault_authority == a);
            }
        }
        None
    }

    /// Index of the participant record addressed by the key derived from
    /// `(a, user)`.
    pub(crate) fn find_participant(&self, a: u64, user: u64) -> (r: Option<usize>)
        requires
            seq_key_unique(self.participants@, participant_key_fn()),
        ensures
            match r {
                Some(i) => i < self.participants@.len() && self.has_participant(a, user)
                    && self.participant_index(a, user) == i as int,
                None => !self.has_participant(a, user),
            },
    {
        let mut i: usize = 0;
        while i < self.participants.len()
            invariant
                seq_key_unique(self.participants@, participant_key_fn()),
                i <= self.participants@.len(),
                forall|j: int|
                    0 <= j < i ==> !((#[trigger] self.participants@[j]).vault == a
                        && self.participants@[j].user == user),
            decreases self.participants@.len() - i,
        {
            if self.participants[i].vault == a && self.participants[i].user == user {
                proof {
                    let key = participant_key_fn();
                    assert(key(self.participants@[i as int]) == (a, user));
                    lemma_seq_index(self.participants@, key, i as int);
                }
                return Some(i);
            }
            i += 1;
        }
        proof {
            let key = participant_key_fn();
            if self.has_participant(a, user) {
                let j = self.participant_index(a, user);
                assert(0 <= j < self.participants@.len() && key(self.participants@[j]) == (
                a,
                user,
                ));
                assert(self.participants@[j].vault == a && self.participants@[j].user == user);
            }
        }
        None
    }

    /// Index of the ledger account addressed by `user`.
    pub(crate) fn find_account(&self, user: u64) -> (r: Option<usize>)
        requires
            seq_key_unique(self.accounts@, account_key_fn()),
        ensures
            match r {
                Some(i) => i < self.accounts@.len() && self.has_account(user)
                    && self.account_index(user) == i as int,
                None => !self.has_account(user),
            },
    {
        let mut i: usize = 0;
        while i < self.accounts.len()
            invariant
                seq_key_unique(self.accounts@, account_key_fn()),
                i <= self.accounts@.len(),
                forall|j: int| 0 <= j < i ==> (#[trigger] self.accounts@[j]).user != user,
            decreases self.accounts@.len() - i,
        {
            if self.accounts[i].user == user {
                proof {
                    let key = account_key_fn();
                    assert(key(self.accounts@[i as int]) == user);
                    lemma_seq_index(self.accounts@, key, i as int);
                }
                return Some(i);
            }
            i += 1;
        }
        proof {
            let key = account_key_fn();
            if self.has_account(user) {
                let j = self.account_index(user);
                assert(0 <= j < self.accounts@.len() && key(self.accounts@[j]) == user);
                assert(self.accounts@[j].user == user);
            }
        }
        None
    }

    /// Index of the fulfillment the oracle delivered for `handle`.
    pub(crate) fn find_fulfillment(&self, handle: u64) -> (r: Option<usize>)
        requires
            seq_key_unique(self.fulfillments@, fulfillment_key_fn()),
        ensures
            match r {
                Some(i) => i < self.fulfillments@.len() && self.has_fulfillment(handle)
                    && self.fulfillment_index(handle) == i as int,
                None => !self.has_fulfillment(handle),
            },
    {
        let mut i: usize = 0;
        while i < self.fulfillments.len()
            invariant
                seq_key_unique(self.fulfillments@, fulfillment_key_fn()),
                i <= self.fulfillments@.len(),
                forall|j: int| 0 <= j < i ==> (#[trigger] self.fulfillments@[j]).handle != handle,
            decreases self.fulfillments@.len() - i,
        {
            if self.fulfillments[i].handle == handle {
                proof {
                    let key = fulfillment_key_fn();
                    assert(key(self.fulfillments@[i as int]) == handle);
                    lemma_seq_index(self.fulfillments@, key, i as int);
                }
                return Some(i);
            }
            i += 1;
        }
        proof {
            let key = fulfillment_key_fn();
            if self.has_fulfillment(handle) {
                let j = self.fulfillment_index(handle);
                assert(0 <= j < self.fulfillments@.len() && key(self.fulfillments@[j]) == handle);
                assert(self.fulfillments@[j].handle == handle);
            }
        }
        None
    }

    /// Moves the ledger clock forward.  Time never runs backwards.
    pub fn set_slot(&mut self, slot: u64)
        requires
            old(self).wf(),
            old(self).slot <= slot,
        ensures
            final(self).wf(),
            final(self).slot == slot,
            final(self).vaults@ == old(self).vaults@,
            final(self).participants@ == old(self).participants@,
            final(self).accounts@ == old(self).accounts@,
            final(self).fulfillments@ == old(self).fulfillments@,
    {
        self.slot = slot;
    }

    /// Credits a user's account from outside the system — the faucet or
    /// funding channel of the surrounding ledger.
    pub fn credit(&mut self, user: u64, amount: u64)
        requires
            old(self).wf(),
            old(self).balance_of(user) + amount <= u64::MAX,
        ensures
            final(self).wf(),
            final(self).balance_of(user) == old(self).balance_of(user) + amount,
            forall|u2: u64| u2 != user ==> final(self).balance_of(u2) == old(self).balance_of(u2),
            final(self).slot == old(self).slot,
            final(self).vaults@ == old(self).vaults@,
            final(self).participants@ == old(self).participants@,
            final(self).fulfillments@ == old(self).fulfillments@,
    {
        let ghost pre = *self;
        match self.find_account(user) {
            Some(i) => {
                let bal = self.accounts[i].balance;
                self.accounts[i] = UserAccount { user, balance: bal + amount };
                proof {
                    let key = account_key_fn();
                    lemma_seq_update(pre.accounts@, key, i as int, self.accounts@[i as int]);
                    assert forall|u2: u64| u2 != user implies self.balance_of(u2)
                        == pre.balance_of(u2) by {
                        if pre.has_account(u2) {
                            let j = pre.account_index(u2);
                            assert(self.accounts@[j] == pre.accounts@[j]);
                        }
                    }
                    assert(self.wf());
                }
            },
            None => {
                self.accounts.push(UserAccount { user, balance: amount });
                proof {
                    let key = account_key_fn();
                    assert(key(UserAccount { user, balance: amount }) == user);
                    lemma_seq_push(pre.accounts@, key, UserAccount { user, balance: amount });
                    assert(self.balance_of(user) == amount);
                    assert forall|u2: u64| u2 != user implies self.balance_of(u2)
                        == pre.balance_of(u2) by {
                        if pre.has_account(u2) {
                            let j = pre.account_index(u2);
                            assert(self.accounts@[j] == pre.accounts@[j]);
                        }
                    }
                    assert(self.wf());
                }
            },
        }
    }

    /// The vault addressed by the key derived from `a`, if one exists.
    pub fn get_vault(&self, a: u64) -> (r: Option<Vault>)
        requires
            self.wf(),
        ensures
            match r {
                Some(v) => self.has_vault(a) && v == self.vault_of(a),
                None => !self.has_vault(a),
            },
    {
        match self.find_vault(a) {
            Some(i) => Some(self.vaults[i].vault),
            None => None,
        }
    }

    /// The participant addressed by the key derived from `(a, user)`, if one
    /// exists.
    pub fn get_participant(&self, a: u64, user: u64) -> (r: Option<Participant>)
        requires
            self.wf(),
        ensures
            match r {
                Some(p) => self.has_participant(a, user) && p == self.participant_of(a, user),
                None => !self.has_participant(a, user),
            },
    {
        match self.find_participant(a, user) {
            Some(i) => Some(self.participants[i]),
            None => None,
        }
    }

    /// A user's available balance.
    pub fn get_balance(&self, user: u64) -> (r: u64)
        requires
            self.wf(),
        ensures
            r as int == self.balance_of(user),
    {
        match self.find_account(user) {
            Some(i) => self.accounts[i].balance,
            None => 0,
        }
    }

    /// The balance held by a vault's account; zero if no vault exists.
    pub fn get_vault_balance(&self, a: u64) -> (r: u64)
        requires
            self.wf(),
        ensures
            r as int == self.vault_balance(a),
    {
        match self.find_vault(a) {
            Some(i) => self.vaults[i].balance,
            None => 0,
        }
    }
}

/// Replacing one vault record in place — same authority, same round, a
/// participant count that did not shrink — keeps the world well-formed and
/// leaves every other vault, and the other stores, untouched.
pub proof fn lemma_vault_update_wf(pre: World, post: World, a: u64, rec2: VaultRecord)
    requires
        pre.wf(),
        pre.has_vault(a),
        rec2.vault.vault_authority == a,
        rec2.vault.lottery_id == pre.vault_of(a).lottery_id,
        rec2.vault.participant_count >= pre.vault_of(a).participant_count,
        post.vaults@ == pre.vaults@.update(pre.vault_index(a), rec2),
        post.slot == pre.slot,
        post.participants@ == pre.participants@,
        post.accounts@ == pre.accounts@,
        post.fulfillments@ == pre.fulfillments@,
        post.vault_valid(rec2.vault),
    ensures
        post.wf(),
        post.has_vault(a),
        post.vault_index(a) == pre.vault_index(a),
        post.vault_rec(a) == rec2,
        vault_frame(pre, post, a),
{
    let key = vault_key_fn();
    let i = pre.vault_index(a);
    assert(0 <= i < pre.vaults@.len() && key(pre.vaults@[i]) == a);
    assert(key(rec2) == a);
    lemma_seq_update(pre.vaults@, key, i, rec2);
    assert(post.vault_rec(a) == rec2);
    assert forall|b: u64|
        b != a implies #[trigger] post.has_vault(b) == pre.has_vault(b) && (pre.has_vault(b)
            ==> post.vault_rec(b) == pre.vault_rec(b)) by {
        if pre.has_vault(b) {
            let j = pre.vault_index(b);
            assert(0 <= j < pre.vaults@.len() && key(pre.vaults@[j]) == b);
            assert(j != i);
            assert(post.vaults@[j] == pre.vaults@[j]);
        }
    }
    assert forall|k: int| 0 <= k < post.vaults@.len() implies post.vault_valid(
        #[trigger] post.vaults@[k].vault,
    ) by {
        if k == i {
            assert(post.vaults@[k] == rec2);
        } else {
            assert(post.vaults@[k] == pre.vaults@[k]);
            assert(pre.vault_valid(pre.vaults@[k].vault));
        }
    }
    assert forall|k: int| 0 <= k < post.participants@.len() implies post.participant_valid(
        #[trigger] post.participants@[k],
    ) by {
        let p = pre.participants@[k];
        assert(pre.participant_valid(p));
        if post.has_vault(p.vault) && p.lottery_id == post.vault_of(p.vault).lottery_id {
            if p.vault == a {
                assert(post.vault_of(a) == rec2.vault);
                assert(p.lottery_id == pre.vault_of(a).lottery_id);
                assert(p.id < pre.vault_of(a).participant_count);
            } else {
                assert(post.vault_rec(p.vault) == pre.vault_rec(p.vault));
            }
        }
    }
    assert(post.participant_ids_distinct());
}

} // verus!
