use vstd::prelude::*;

use crate::errors::{Failure, VaultError};
use crate::events::{InitializeVaultEvent, ToggleLockEvent, DepositEvent};
use crate::state::{Vault, VaultRecord, Participant, UserAccount, DrawStrategy};
use crate::world::{World, unchanged, vault_frame, account_frame, vault_key_fn,
    participant_key_fn, account_key_fn, lemma_vault_update_wf};
use crate::store::{lemma_seq_push, lemma_seq_update};

verus! {

impl World {
    /// Creates a vault for `vault_authority`, open or locked as requested,
    /// with the winner-selection strategy fixed for the vault's lifetime.
    ///
    /// The round id is taken from the ledger clock; the creating transaction
    /// occupies a fresh tick, which is what makes round ids monotonically
    /// distinguishing: no stale participant can ever share a round with a
    /// vault created later.
    ///
    /// Fails `RecordExists` iff a vault for this authority already exists
    /// (records are created at most once per derived key).
    pub fn init_vault(&mut self, vault_authority: u64, locked: bool, strategy: DrawStrategy) -> (r:
        Result<InitializeVaultEvent, Failure>)
        requires
            old(self).wf(),
            old(self).slot < u64::MAX,
        ensures
            final(self).wf(),
            old(self).has_vault(vault_authority) ==> r == Err::<InitializeVaultEvent, Failure>(
                Failure::RecordExists,
            ) && unchanged(*old(self), *final(self)),
            !old(self).has_vault(vault_authority) ==> {
                &&& r == Ok::<InitializeVaultEvent, Failure>(
                    InitializeVaultEvent { vault: vault_authority, vault_authority, locked },
                )
                &&& final(self).slot == old(self).slot + 1
                &&& final(self).has_vault(vault_authority)
                &&& final(self).vault_of(vault_authority) == Vault::fresh(
                    vault_authority,
                    locked,
                    strategy,
                    (old(self).slot + 1) as u64,
                )
                &&& final(self).vault_rec(vault_authority).balance == 0
                &&& final(self).vaults@.len() == old(self).vaults@.len() + 1
                &&& final(self).participants@ == old(self).participants@
                &&& final(self).accounts@ == old(self).accounts@
                &&& final(self).fulfillments@ == old(self).fulfillments@
                &&& vault_frame(*old(self), *final(self), vault_authority)
            },
    {
        let ghost pre = *self;
        match self.find_vault(vault_authority) {
            Some(_) => Err(Failure::RecordExists),
            None => {
                let round = self.slot + 1;
                self.slot = round;
                let v = Vault {
                    vault_authority,
                    lottery_id: round,
                    locked,
                    strategy,
                    participant_count: 0,
                    randomness_account: None,
                    commit_slot: 0,
                    winner_id: 0,
                    drawn: false,
                    claimed: false,
                };
                let rec = VaultRecord { vault: v, balance: 0 };
                self.vaults.push(rec);
                proof {
                    let key = vault_key_fn();
                    assert(key(rec) == vault_authority);
                    lemma_seq_push(pre.vaults@, key, rec);
                    assert(self.vault_rec(vault_authority) == rec);
                    assert forall|b: u64|
                        b != vault_authority implies #[trigger] self.has_vault(b)
                        == pre.has_vault(b) && (pre.has_vault(b) ==> self.vault_rec(b)
                        == pre.vault_rec(b)) by {
                        if pre.has_vault(b) {
                            let j = pre.vault_index(b);
                            assert(0 <= j < pre.vaults@.len() && key(pre.vaults@[j]) == b);
                            assert(self.vaults@[j] == pre.vaults@[j]);
                        }
                    }
                    assert forall|k: int| 0 <= k < self.vaults@.len() implies self.vault_valid(
                        #[trigger] self.vaults@[k].vault,
                    ) by {
                        if k < pre.vaults@.len() {
                            assert(self.vaults@[k] == pre.vaults@[k]);
                            assert(pre.vault_valid(pre.vaults@[k].vault));
                        } else {
                            assert(self.vaults@[k] == rec);
                        }
                    }
                    assert forall|k: int|
                        0 <= k < self.participants@.len() implies self.participant_valid(
                        #[trigger] self.participants@[k],
                    ) by {
                        let p = pre.participants@[k];
                        assert(pre.participant_valid(p));
                        if p.vault == vault_authority {
                            // The new vault's round is one tick past everything
                            // the clock had stamped, so no stale participant
                            // matches it.
                            assert(self.vault_of(vault_authority).lottery_id == pre.slot + 1);
                            assert(p.lottery_id <= pre.slot);
                        } else {
                            if self.has_vault(p.vault) {
                                assert(self.vault_rec(p.vault) == pre.vault_rec(p.vault));
                            }
                        }
                    }
                    assert(self.participant_ids_distinct());
                    assert(self.wf());
                }
                Ok(InitializeVaultEvent { vault: vault_authority, vault_authority, locked })
            },
        }
    }

    /// Flips the vault's entry lock.  Only the authority can address the
    /// vault (its key is derived from the authority's identity); there is no
    /// other precondition — the lock may be toggled at any point in the
    /// lifecycle, including after the draw.  That latitude is preserved
    /// deliberately, not an oversight to fix here.
    pub fn toggle_lock(&mut self, vault_authority: u64) -> (r: Result<ToggleLockEvent, Failure>)
        requires
            old(self).wf(),
        ensures
            final(self).wf(),
            !old(self).has_vault(vault_authority) ==> r == Err::<ToggleLockEvent, Failure>(
                Failure::MissingRecord,
            ) && unchanged(*old(self), *final(self)),
            old(self).has_vault(vault_authority) ==> {
                &&& r == Ok::<ToggleLockEvent, Failure>(
                    ToggleLockEvent {
                        vault: vault_authority,
                        vault_authority,
                        locked: !old(self).vault_of(vault_authority).locked,
                    },
                )
                &&& final(self).has_vault(vault_authority)
                &&& final(self).vault_of(vault_authority) == (Vault {
                    locked: !old(self).vault_of(vault_authority).locked,
                    ..old(self).vault_of(vault_authority)
                })
                &&& final(self).vault_rec(vault_authority).balance == old(self).vault_rec(
                    vault_authority,
                ).balance
                &&& final(self).slot == old(self).slot
                &&& final(self).participants@ == old(self).participants@
                &&& final(self).accounts@ == old(self).accounts@
                &&& final(self).fulfillments@ == old(self).fulfillments@
                &&& vault_frame(*old(self), *final(self), vault_authority)
            },
    {
        let ghost pre = *self;
        match self.find_vault(vault_authority) {
            None => Err(Failure::MissingRecord),
            Some(i) => {
                let mut rec = self.vaults[i];
                rec.vault.locked = !rec.vault.locked;
                self.vaults[i] = rec;
                proof {
                    assert(pre.vault_valid(pre.vault_of(vault_authority)));
                    lemma_vault_update_wf(pre, *self, vault_authority, rec);
                }
                Ok(ToggleLockEvent {
                    vault: vault_authority,
                    vault_authority,
                    locked: self.vaults[i].vault.locked,
                })
            },
        }
    }

    /// What a deposit must come to, guard by guard, in the fixed order: the
    /// vault must exist, entry must be open, the user must hold the amount,
    /// the user must not already hold a slot in this vault, and the slot
    /// counter must have room.  `Ok` carries the assigned draw slot.
    pub open spec fn deposit_outcome(self, a: u64, user: u64, amount: u64) -> Result<u64, Failure> {
        if !self.has_vault(a) {
            Err(Failure::MissingRecord)
        } else if self.vault_of(a).locked {
            Err(Failure::Program(VaultError::VaultLocked))
        } else if self.balance_of(user) < amount {
            Err(Failure::Program(VaultError::InsufficientBalance))
        } else if self.has_participant(a, user) {
            Err(Failure::RecordExists)
        } else if self.vault_of(a).participant_count == u64::MAX {
            Err(Failure::Program(VaultError::Overflow))
        } else {
            Ok(self.vault_of(a).participant_count)
        }
    }

    /// Escrows `amount` from `user` into the vault and creates the user's
    /// participant record with the next draw slot.
    ///
    /// Every participant holds exactly one equally-weighted draw slot no
    /// matter the amount deposited; the amount only grows the pooled payout.
    /// A second deposit by the same user in the same vault fails with the
    /// substrate's create-once error, not a vault-specific one.
    pub fn deposit(&mut self, vault_authority: u64, user: u64, amount: u64) -> (r: Result<
        DepositEvent,
        Failure,
    >)
        requires
            old(self).wf(),
            old(self).vault_balance(vault_authority) + amount <= u64::MAX,
        ensures
            final(self).wf(),
            (match old(self).deposit_outcome(vault_authority, user, amount) {
                Err(f) => r == Err::<DepositEvent, Failure>(f) && unchanged(
                    *old(self),
                    *final(self),
                ),
                Ok(slot_id) => {
                    &&& r == Ok::<DepositEvent, Failure>(
                        DepositEvent { amount, user, vault: vault_authority },
                    )
                    &&& final(self).has_vault(vault_authority)
                    &&& final(self).vault_of(vault_authority) == (Vault {
                        participant_count: (slot_id + 1) as u64,
                        ..old(self).vault_of(vault_authority)
                    })
                    &&& final(self).vault_rec(vault_authority).balance == old(self).vault_rec(
                        vault_authority,
                    ).balance + amount
                    &&& final(self).has_participant(vault_authority, user)
                    &&& final(self).participant_of(vault_authority, user) == (Participant {
                        vault: vault_authority,
                        lottery_id: old(self).vault_of(vault_authority).lottery_id,
                        user,
                        id: slot_id,
                        is_initialized: true,
                    })
                    &&& final(self).participants@ == old(self).participants@.push(
                        final(self).participant_of(vault_authority, user),
                    )
                    &&& final(self).balance_of(user) == old(self).balance_of(user) - amount
                    &&& account_frame(*old(self), *final(self), user)
                    &&& vault_frame(*old(self), *final(self), vault_authority)
                    &&& final(self).slot == old(self).slot
                    &&& final(self).fulfillments@ == old(self).fulfillments@
                },
            }),
    {
        let ghost pre = *self;
        let vi = match self.find_vault(vault_authority) {
            None => {
                return Err(Failure::MissingRecord);
            },
            Some(i) => i,
        };
        if self.vaults[vi].vault.locked {
            return Err(Failure::Program(VaultError::VaultLocked));
        }
        let acct = self.find_account(user);
        let bal = match acct {
            Some(ai) => self.accounts[ai].balance,
            None => 0,
        };
        if bal < amount {
            return Err(Failure::Program(VaultError::InsufficientBalance));
        }
        if self.find_participant(vault_authority, user).is_some() {
            return Err(Failure::RecordExists);
        }
        let count = self.vaults[vi].vault.participant_count;
        if count == u64::MAX {
            return Err(Failure::Program(VaultError::Overflow));
        }

        // Create the participant with the next slot, then move the funds.
        let p = Participant {
            vault: vault_authority,
            lottery_id: self.vaults[vi].vault.lottery_id,
            user,
            id: count,
            is_initialized: true,
        };
        self.participants.push(p);
        let mut rec = self.vaults[vi];
        rec.vault.participant_count = count + 1;
        rec.balance = rec.balance + amount;
        self.vaults[vi] = rec;
        match acct {
            Some(ai) => {
                let b = self.accounts[ai].balance;
                self.accounts[ai] = UserAccount { user, balance: b - amount };
            },
            None => {
                // No account means a zero balance, and the guard above then
                // forces a zero amount: nothing to move.
            },
        }
        proof {
            let vkey = vault_key_fn();
            let pkey = participant_key_fn();
            let akey = account_key_fn();
            let i = pre.vault_index(vault_authority);
            assert(0 <= i < pre.vaults@.len() && vkey(pre.vaults@[i]) == vault_authority);
            assert(vkey(rec) == vault_authority);
            lemma_seq_update(pre.vaults@, vkey, i, rec);
            assert(pkey(p) == (vault_authority, user));
            lemma_seq_push(pre.participants@, pkey, p);
            match acct {
                Some(ai) => {
                    lemma_seq_update(pre.accounts@, akey, ai as int, self.accounts@[ai as int]);
                    assert forall|u2: u64| u2 != user implies #[trigger] self.balance_of(u2)
                        == pre.balance_of(u2) by {
                        if pre.has_account(u2) {
                            let j = pre.account_index(u2);
                            assert(0 <= j < pre.accounts@.len() && akey(pre.accounts@[j]) == u2);
                            assert(j != ai as int);
                            assert(self.accounts@[j] == pre.accounts@[j]);
                        }
                    }
                },
                None => {
                    assert(self.accounts@ == pre.accounts@);
                    assert(amount == 0);
                },
            }
            // The vault frame.
            assert forall|b: u64|
                b != vault_authority implies #[trigger] self.has_vault(b) == pre.has_vault(b) && (
            pre.has_vault(b) ==> self.vault_rec(b) == pre.vault_rec(b)) by {
                if pre.has_vault(b) {
                    let j = pre.vault_index(b);
                    assert(0 <= j < pre.vaults@.len() && vkey(pre.vaults@[j]) == b);
                    assert(j != i);
                    assert(self.vaults@[j] == pre.vaults@[j]);
                }
            }
            assert(self.vault_rec(vault_authority) == rec);
            assert(self.participant_of(vault_authority, user) == p);
            // Well-formedness of the new world.
            assert forall|k: int| 0 <= k < self.vaults@.len() implies self.vault_valid(
                #[trigger] self.vaults@[k].vault,
            ) by {
                if k == i {
                    assert(pre.vault_valid(pre.vaults@[i].vault));
                    assert(self.vaults@[k] == rec);
                } else {
                    assert(self.vaults@[k] == pre.vaults@[k]);
                    assert(pre.vault_valid(pre.vaults@[k].vault));
                }
            }
            assert forall|k: int| 0 <= k < self.participants@.len() implies self.participant_valid(
                #[trigger] self.participants@[k],
            ) by {
                if k < pre.participants@.len() {
                    let q = pre.participants@[k];
                    assert(pre.participant_valid(q));
                    assert(self.participants@[k] == q);
                    if self.has_vault(q.vault) && q.lottery_id == self.vault_of(
                        q.vault,
                    ).lottery_id {
                        if q.vault == vault_authority {
                            assert(self.vault_of(vault_authority) == rec.vault);
                            assert(q.id < pre.vault_of(vault_authority).participant_count);
                        } else {
                            assert(self.vault_rec(q.vault) == pre.vault_rec(q.vault));
                        }
                    }
                } else {
                    assert(self.participants@[k] == p);
                    assert(self.vault_of(vault_authority) == rec.vault);
                }
            }
            assert forall|k: int, l: int|
                #![trigger self.participants@[k], self.participants@[l]]
                0 <= k < self.participants@.len() && 0 <= l < self.participants@.len() && k != l
                    && self.participants@[k].vault == self.participants@[l].vault
                    && self.participants@[k].lottery_id == self.participants@[l].lottery_id implies
                self.participants@[k].id != self.participants@[l].id by {
                let n = pre.participants@.len() as int;
                if k < n && l < n {
                    assert(self.participants@[k] == pre.participants@[k]);
                    assert(self.participants@[l] == pre.participants@[l]);
                } else if k < n || l < n {
                    // One of the two is the record just created; any live
                    // participant of the same round sits strictly below the
                    // old count, while the new slot is exactly the old count.
                    let m = if k < n {
                        k
                    } else {
                        l
                    };
                    let q = pre.participants@[m];
                    assert(pre.participant_valid(q));
                    assert(q.id < pre.vault_of(vault_authority).participant_count);
                }
            }
            assert(self.wf());
        }
        Ok(DepositEvent { amount, user, vault: vault_authority })
    }
}

} // verus!
