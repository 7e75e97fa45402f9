use vstd::prelude::*;

use crate::errors::{Failure, VaultError};
use crate::events::WinnerClaimedEvent;
use crate::state::{UserAccount};
use crate::world::{World, unchanged, vault_frame, account_frame, vault_key_fn,
    participant_key_fn, account_key_fn};
use crate::store::{lemma_seq_remove, lemma_seq_update, lemma_seq_push};

verus! {

impl World {
    /// What a claim must come to, guard by guard: the vault must exist and
    /// be locked, drawn and unclaimed, and the caller must hold the live
    /// participant record whose draw slot is the settled winner — absence
    /// and mismatch alike are `InvalidWinner`.  `Ok` carries the payout: the
    /// vault's entire balance.
    pub open spec fn claim_outcome(self, a: u64, user: u64) -> Result<u64, Failure> {
        if !self.has_vault(a) {
            Err(Failure::MissingRecord)
        } else if !self.vault_of(a).locked {
            Err(Failure::Program(VaultError::VaultNotLocked))
        } else if !self.vault_of(a).drawn {
            Err(Failure::Program(VaultError::NotDrawn))
        } else if self.vault_of(a).claimed {
            Err(Failure::Program(VaultError::AlreadyClaimed))
        } else if !self.has_participant(a, user) {
            Err(Failure::Program(VaultError::InvalidWinner))
        } else if self.participant_of(a, user).id != self.vault_of(a).winner_id {
            Err(Failure::Program(VaultError::InvalidWinner))
        } else {
            Ok(self.vault_rec(a).balance)
        }
    }

    /// Pays the vault's entire balance — escrowed deposits and the record's
    /// storage reservation alike — to the winner, and destroys the vault.
    ///
    /// Winner-take-all is deliberate: there is no path for non-winners to
    /// recover funds.  Because the vault record is destroyed here, claiming
    /// is possible at most once; any later instruction addressed to the same
    /// vault fails `MissingRecord`, not with a vault-specific error.  The
    /// winner's participant record is left alone — only `close_participant`
    /// destroys participants.
    ///
    /// The participant's draw slot is compared against the settled
    /// `winner_id`; the record addressed by `(vault, user)` belongs to this
    /// vault and is initialized by construction of the store.
    pub fn claim_if_winner(&mut self, vault_authority: u64, user: u64) -> (r: Result<
        WinnerClaimedEvent,
        Failure,
    >)
        requires
            old(self).wf(),
            old(self).balance_of(user) + old(self).vault_balance(vault_authority) <= u64::MAX,
        ensures
            final(self).wf(),
            (match old(self).claim_outcome(vault_authority, user) {
                Err(f) => r == Err::<WinnerClaimedEvent, Failure>(f) && unchanged(
                    *old(self),
                    *final(self),
                ),
                Ok(payout) => {
                    &&& r == Ok::<WinnerClaimedEvent, Failure>(
                        WinnerClaimedEvent { vault: vault_authority, winner: user, amount: payout },
                    )
                    &&& !final(self).has_vault(vault_authority)
                    &&& final(self).vaults@.len() == old(self).vaults@.len() - 1
                    &&& vault_frame(*old(self), *final(self), vault_authority)
                    &&& final(self).balance_of(user) == old(self).balance_of(user) + payout
                    &&& account_frame(*old(self), *final(self), user)
                    &&& final(self).participants@ == old(self).participants@
                    &&& final(self).slot == old(self).slot
                    &&& final(self).fulfillments@ == old(self).fulfillments@
                },
            }),
    {
        let ghost pre = *self;
        let i = match self.find_vault(vault_authority) {
            None => {
                return Err(Failure::MissingRecord);
            },
            Some(i) => i,
        };
        let v = self.vaults[i].vault;
        if !v.locked {
            return Err(Failure::Program(VaultError::VaultNotLocked));
        }
        if !v.drawn {
            return Err(Failure::Program(VaultError::NotDrawn));
        }
        if v.claimed {
            return Err(Failure::Program(VaultError::AlreadyClaimed));
        }
        let pi = match self.find_participant(vault_authority, user) {
            None => {
                return Err(Failure::Program(VaultError::InvalidWinner));
            },
            Some(pi) => pi,
        };
        if self.participants[pi].id != v.winner_id {
            return Err(Failure::Program(VaultError::InvalidWinner));
        }

        // The whole balance leaves with the winner; destroying the record
        // is what marks the vault claimed.
        let payout = self.vaults[i].balance;
        self.vaults.remove(i);
        proof {
            let vkey = vault_key_fn();
            assert(0 <= i < pre.vaults@.len() && vkey(pre.vaults@[i as int]) == vault_authority);
            lemma_seq_remove(pre.vaults@, vkey, i as int);
        }
        let acct = self.find_account(user);
        match acct {
            Some(ai) => {
                let b = self.accounts[ai].balance;
                self.accounts[ai] = UserAccount { user, balance: b + payout };
                proof {
                    lemma_seq_update(
                        pre.accounts@,
                        account_key_fn(),
                        ai as int,
                        self.accounts@[ai as int],
                    );
                }
            },
            None => {
                self.accounts.push(UserAccount { user, balance: payout });
                proof {
                    let akey = account_key_fn();
                    assert(akey(self.accounts@[pre.accounts@.len() as int]) == user);
                    lemma_seq_push(
                        pre.accounts@,
                        akey,
                        self.accounts@[pre.accounts@.len() as int],
                    );
                }
            },
        }
        proof {
            let akey = account_key_fn();
            assert forall|u2: u64| u2 != user implies #[trigger] self.balance_of(u2)
                == pre.balance_of(u2) by {
                if pre.has_account(u2) {
                    let j = pre.account_index(u2);
                    assert(0 <= j < pre.accounts@.len() && akey(pre.accounts@[j]) == u2);
                    assert(self.accounts@[j] == pre.accounts@[j]);
                }
            }
            assert(self.balance_of(user) == pre.balance_of(user) + payout);
            // Well-formedness after the removal.
            assert forall|k: int| 0 <= k < self.vaults@.len() implies self.vault_valid(
                #[trigger] self.vaults@[k].vault,
            ) by {
                if k < i as int {
                    assert(self.vaults@[k] == pre.vaults@[k]);
                    assert(pre.vault_valid(pre.vaults@[k].vault));
                } else {
                    assert(self.vaults@[k] == pre.vaults@[k + 1]);
                    assert(pre.vault_valid(pre.vaults@[k + 1].vault));
                }
            }
            assert forall|k: int| 0 <= k < self.participants@.len() implies self.participant_valid(
                #[trigger] self.participants@[k],
            ) by {
                let p = pre.participants@[k];
                assert(pre.participant_valid(p));
                if p.vault == vault_authority {
                    // The owning vault is gone; nothing is required of a
                    // stale participant.
                    assert(!self.has_vault(p.vault));
                } else {
                    if self.has_vault(p.vault) {
                        assert(self.vaults@[self.vault_index(p.vault)] == pre.vaults@[
                        pre.vault_index(p.vault)]);
                    }
                }
            }
            assert(self.participant_ids_distinct());
            assert(self.wf());
        }
        Ok(WinnerClaimedEvent { vault: vault_authority, winner: user, amount: payout })
    }

    /// What closing a participant must come to: the caller's record exists
    /// and is destroyed, or there is nothing under the key.
    pub open spec fn close_outcome(self, a: u64, user: u64) -> Result<(), Failure> {
        if !self.has_participant(a, user) {
            Err(Failure::MissingRecord)
        } else {
            Ok(())
        }
    }

    /// Destroys the caller's participant record, returning its storage
    /// reservation, so the user can enter a future round.  Permitted in any
    /// vault or draw state — including for a declared winner before the
    /// claim, which permanently forfeits the prize.  That risk is preserved
    /// from the system's design, not resolved here.
    pub fn close_participant(&mut self, vault_authority: u64, user: u64) -> (r: Result<
        (),
        Failure,
    >)
        requires
            old(self).wf(),
        ensures
            final(self).wf(),
            (match old(self).close_outcome(vault_authority, user) {
                Err(f) => r == Err::<(), Failure>(f) && unchanged(*old(self), *final(self)),
                Ok(()) => {
                    &&& r == Ok::<(), Failure>(())
                    &&& !final(self).has_participant(vault_authority, user)
                    &&& final(self).participants@.len() == old(self).participants@.len() - 1
                    &&& forall|b: u64, u2: u64|
                        !(b == vault_authority && u2 == user)
                            ==> #[trigger] final(self).has_participant(b, u2)
                            == old(self).has_participant(b, u2) && (old(self).has_participant(b, u2)
                            ==> final(self).participant_of(b, u2) == old(self).participant_of(
                            b,
                            u2,
                        ))
                    &&& final(self).slot == old(self).slot
                    &&& final(self).vaults@ == old(self).vaults@
                    &&& final(self).accounts@ == old(self).accounts@
                    &&& final(self).fulfillments@ == old(self).fulfillments@
                },
            }),
    {
        let ghost pre = *self;
        match self.find_participant(vault_authority, user) {
            None => Err(Failure::MissingRecord),
            Some(i) => {
                self.participants.remove(i);
                proof {
                    let pkey = participant_key_fn();
                    assert(0 <= i < pre.participants@.len() && pkey(pre.participants@[i as int])
                        == (vault_authority, user));
                    lemma_seq_remove(pre.participants@, pkey, i as int);
                    assert forall|b: u64, u2: u64|
                        !(b == vault_authority && u2 == user)
                            implies #[trigger] self.has_participant(b, u2) == pre.has_participant(
                        b,
                        u2,
                    ) && (pre.has_participant(b, u2) ==> self.participant_of(b, u2)
                        == pre.participant_of(b, u2)) by {
                        assert((b, u2) != (vault_authority, user));
                    }
                    assert forall|k: int|
                        0 <= k < self.participants@.len() implies self.participant_valid(
                        #[trigger] self.participants@[k],
                    ) by {
                        let k0 = if k < i as int {
                            k
                        } else {
                            k + 1
                        };
                        assert(self.participants@[k] == pre.participants@[k0]);
                        assert(pre.participant_valid(pre.participants@[k0]));
                    }
                    assert forall|k: int, l: int|
                        #![trigger self.participants@[k], self.participants@[l]]
                        0 <= k < self.participants@.len() && 0 <= l < self.participants@.len() && k
                            != l && self.participants@[k].vault == self.participants@[l].vault
                            && self.participants@[k].lottery_id
                            == self.participants@[l].lottery_id implies self.participants@[k].id
                        != self.participants@[l].id by {
                        let k0 = if k < i as int {
                            k
                        } else {
                            k + 1
                        };
                        let l0 = if l < i as int {
                            l
                        } else {
                            l + 1
                        };
                        assert(self.participants@[k] == pre.participants@[k0]);
                        assert(self.participants@[l] == pre.participants@[l0]);
                    }
                    assert(self.wf());
                }
                Ok(())
            },
        }
    }
}

} // verus!
