use vstd::prelude::*;

use crate::errors::{Failure, VaultError};
use crate::events::WinnerDrawnEvent;
use crate::state::{Vault, Fulfillment, DrawStrategy, draw_guard};
use crate::world::{World, unchanged, vault_frame, fulfillment_key_fn, lemma_vault_update_wf};
use crate::store::{lemma_seq_push};
use crate::randomness::{le_bytes_value, u64_from_le_prefix};

verus! {

impl World {
    /// What committing to a draw must come to.  `Ok(true)` means the vault
    /// now carries a pending oracle request; `Ok(false)` means the strategy
    /// has no commit phase and the call was a harmless marker.
    pub open spec fn commit_outcome(self, a: u64) -> Result<bool, Failure> {
        if !self.has_vault(a) {
            Err(Failure::MissingRecord)
        } else {
            match draw_guard(self.vault_of(a)) {
                Some(e) => Err(Failure::Program(e)),
                None => Ok(self.vault_of(a).strategy == DrawStrategy::Oracle),
            }
        }
    }

    /// Commits the vault's round to a draw.
    ///
    /// Both commit and settle check the same four guards in the same fixed
    /// order — locked, participants, drawn, claimed — so the first violated
    /// guard is the one reported (see [`draw_guard`]).  Under the oracle
    /// strategy a randomness request is issued under the caller-chosen
    /// `seed`; the request's handle (derived deterministically from the
    /// seed) and the commit-time clock are recorded on the vault.  Under the
    /// other strategies commit is a no-op marker.
    pub fn commit_draw(&mut self, vault_authority: u64, seed: u64) -> (r: Result<(), Failure>)
        requires
            old(self).wf(),
        ensures
            final(self).wf(),
            (match old(self).commit_outcome(vault_authority) {
                Err(f) => r == Err::<(), Failure>(f) && unchanged(*old(self), *final(self)),
                Ok(committed) => {
                    &&& r == Ok::<(), Failure>(())
                    &&& !committed ==> unchanged(*old(self), *final(self))
                    &&& committed ==> {
                        &&& final(self).has_vault(vault_authority)
                        &&& final(self).vault_of(vault_authority) == (Vault {
                            randomness_account: Some(seed),
                            commit_slot: old(self).slot,
                            ..old(self).vault_of(vault_authority)
                        })
                        &&& final(self).vault_rec(vault_authority).balance == old(self).vault_rec(
                            vault_authority,
                        ).balance
                        &&& final(self).slot == old(self).slot
                        &&& final(self).participants@ == old(self).participants@
                        &&& final(self).accounts@ == old(self).accounts@
                        &&& final(self).fulfillments@ == old(self).fulfillments@
                        &&& vault_frame(*old(self), *final(self), vault_authority)
                    }
                },
            }),
    {
        let ghost pre = *self;
        let i = match self.find_vault(vault_authority) {
            None => {
                return Err(Failure::MissingRecord);
            },
            Some(i) => i,
        };
        let v = self.vaults[i].vault;
        if !v.locked {
            return Err(Failure::Program(VaultError::VaultNotLocked));
        }
        if v.participant_count == 0 {
            return Err(Failure::Program(VaultError::NoParticipants));
        }
        if v.drawn {
            return Err(Failure::Program(VaultError::AlreadyDrawn));
        }
        if v.claimed {
            return Err(Failure::Program(VaultError::AlreadyClaimed));
        }
        match v.strategy {
            DrawStrategy::Oracle => {
                let mut rec = self.vaults[i];
                rec.vault.randomness_account = Some(seed);
                rec.vault.commit_slot = self.slot;
                self.vaults[i] = rec;
                proof {
                    assert(pre.vault_valid(pre.vault_of(vault_authority)));
                    lemma_vault_update_wf(pre, *self, vault_authority, rec);
                }
                Ok(())
            },
            _ => {
                // Naive and operator-supplied draws have no commit phase;
                // the call is a permitted no-op once the guards pass.
                Ok(())
            },
        }
    }

    /// What settling the draw must come to, guard by guard and strategy by
    /// strategy.  `Ok` carries the winner id, always in
    /// `[0, participant_count)`:
    /// - naive: the current ledger clock, reduced modulo the participant
    ///   count;
    /// - oracle: the first eight bytes of the oracle's fulfilled value, read
    ///   as a little-endian integer and reduced modulo the count — failing
    ///   closed while no commit was made or the request is unfulfilled;
    /// - operator-supplied: the value handed in by the authority, rejected
    ///   unless it already lies in range.
    pub open spec fn settle_outcome(self, a: u64, supplied: Option<u64>) -> Result<u64, Failure> {
        if !self.has_vault(a) {
            Err(Failure::MissingRecord)
        } else {
            let v = self.vault_of(a);
            match draw_guard(v) {
                Some(e) => Err(Failure::Program(e)),
                None => match v.strategy {
                    DrawStrategy::Naive => Ok((self.slot as int % v.participant_count as int) as u64),
                    DrawStrategy::Oracle => match v.randomness_account {
                        None => Err(Failure::Program(VaultError::RandomnessNotCommitted)),
                        Some(h) => if !self.has_fulfillment(h) {
                            Err(Failure::Program(VaultError::RandomnessNotResolved))
                        } else {
                            Ok(
                                (le_bytes_value(self.fulfillment_value(h)) % (
                                v.participant_count as int)) as u64,
                            )
                        },
                    },
                    DrawStrategy::Operator => match supplied {
                        Some(w) => if w < v.participant_count {
                            Ok(w)
                        } else {
                            Err(Failure::Program(VaultError::InvalidWinner))
                        },
                        None => Err(Failure::Program(VaultError::InvalidWinner)),
                    },
                },
            }
        }
    }

    /// Settles the draw: fixes `winner_id` and sets `drawn`, exactly once
    /// per round.  `supplied` carries the authority's winner id under the
    /// operator strategy and is ignored by the other two.
    ///
    /// Settling is safe to attempt any number of times: every failing call
    /// — in particular an oracle-strategy call before fulfillment — leaves
    /// the vault untouched, and the `drawn` flag makes a second success
    /// impossible (`AlreadyDrawn`).
    pub fn settle_draw(&mut self, vault_authority: u64, supplied: Option<u64>) -> (r: Result<
        WinnerDrawnEvent,
        Failure,
    >)
        requires
            old(self).wf(),
        ensures
            final(self).wf(),
            (match old(self).settle_outcome(vault_authority, supplied) {
                Err(f) => r == Err::<WinnerDrawnEvent, Failure>(f) && unchanged(
                    *old(self),
                    *final(self),
                ),
                Ok(w) => {
                    &&& w < old(self).vault_of(vault_authority).participant_count
                    &&& r == Ok::<WinnerDrawnEvent, Failure>(
                        WinnerDrawnEvent { vault: vault_authority, winner_id: w },
                    )
                    &&& final(self).has_vault(vault_authority)
                    &&& final(self).vault_of(vault_authority) == (Vault {
                        winner_id: w,
                        drawn: true,
                        ..old(self).vault_of(vault_authority)
                    })
                    &&& final(self).vault_rec(vault_authority).balance == old(self).vault_rec(
                        vault_authority,
                    ).balance
                    &&& final(self).slot == old(self).slot
                    &&& final(self).participants@ == old(self).participants@
                    &&& final(self).accounts@ == old(self).accounts@
                    &&& final(self).fulfillments@ == old(self).fulfillments@
                    &&& vault_frame(*old(self), *final(self), vault_authority)
                },
            }),
    {
        let ghost pre = *self;
        let i = match self.find_vault(vault_authority) {
            None => {
                return Err(Failure::MissingRecord);
            },
            Some(i) => i,
        };
        let v = self.vaults[i].vault;
        if !v.locked {
            return Err(Failure::Program(VaultError::VaultNotLocked));
        }
        if v.participant_count == 0 {
            return Err(Failure::Program(VaultError::NoParticipants));
        }
        if v.drawn {
            return Err(Failure::Program(VaultError::AlreadyDrawn));
        }
        if v.claimed {
            return Err(Failure::Program(VaultError::AlreadyClaimed));
        }
        let winner_id: u64 = match v.strategy {
            DrawStrategy::Naive => self.slot % v.participant_count,
            DrawStrategy::Oracle => {
                let handle = match v.randomness_account {
                    None => {
                        return Err(Failure::Program(VaultError::RandomnessNotCommitted));
                    },
                    Some(h) => h,
                };
                let fi = match self.find_fulfillment(handle) {
                    None => {
                        return Err(Failure::Program(VaultError::RandomnessNotResolved));
                    },
                    Some(fi) => fi,
                };
                let value = u64_from_le_prefix(&self.fulfillments[fi].value);
                value % v.participant_count
            },
            DrawStrategy::Operator => {
                match supplied {
                    None => {
                        return Err(Failure::Program(VaultError::InvalidWinner));
                    },
                    Some(w) => {
                        if w >= v.participant_count {
                            return Err(Failure::Program(VaultError::InvalidWinner));
                        }
                        w
                    },
                }
            },
        };
        let mut rec = self.vaults[i];
        rec.vault.winner_id = winner_id;
        rec.vault.drawn = true;
        self.vaults[i] = rec;
        proof {
            assert(pre.vault_valid(pre.vault_of(vault_authority)));
            lemma_vault_update_wf(pre, *self, vault_authority, rec);
        }
        Ok(WinnerDrawnEvent { vault: vault_authority, winner_id })
    }

    /// The external oracle delivering the randomness for a pending request.
    ///
    /// This is the oracle's move, not an instruction of the program: it may
    /// come an arbitrary time after the commit, or never.  A handle is
    /// fulfilled at most once; a second delivery for the same handle is
    /// ignored.  The oracle's values are at least eight bytes long.
    pub fn fulfill_randomness(&mut self, handle: u64, value: Vec<u8>) -> (r: bool)
        requires
            old(self).wf(),
            value@.len() >= 8,
        ensures
            final(self).wf(),
            old(self).has_fulfillment(handle) ==> !r && unchanged(*old(self), *final(self)),
            !old(self).has_fulfillment(handle) ==> {
                &&& r
                &&& final(self).has_fulfillment(handle)
                &&& final(self).fulfillment_value(handle) == value@
                &&& forall|h2: u64|
                    h2 != handle ==> #[trigger] final(self).has_fulfillment(h2)
                        == old(self).has_fulfillment(h2) && (old(self).has_fulfillment(h2)
                        ==> final(self).fulfillment_value(h2) == old(self).fulfillment_value(h2))
                &&& final(self).slot == old(self).slot
                &&& final(self).vaults@ == old(self).vaults@
                &&& final(self).participants@ == old(self).participants@
                &&& final(self).accounts@ == old(self).accounts@
            },
    {
        let ghost pre = *self;
        match self.find_fulfillment(handle) {
            Some(_) => false,
            None => {
                let f = Fulfillment { handle, value };
                self.fulfillments.push(f);
                proof {
                    let key = fulfillment_key_fn();
                    assert(key(self.fulfillments@[pre.fulfillments@.len() as int]) == handle);
                    lemma_seq_push(pre.fulfillments@, key, self.fulfillments@[pre.fulfillments@.len() as int]);
                    assert forall|h2: u64|
                        h2 != handle implies #[trigger] self.has_fulfillment(h2)
                        == pre.has_fulfillment(h2) && (pre.has_fulfillment(h2)
                        ==> self.fulfillment_value(h2) == pre.fulfillment_value(h2)) by {
                        if pre.has_fulfillment(h2) {
                            let j = pre.fulfillment_index(h2);
                            assert(0 <= j < pre.fulfillments@.len() && key(pre.fulfillments@[j])
                                == h2);
                            assert(self.fulfillments@[j] == pre.fulfillments@[j]);
                        }
                    }
                    assert forall|k: int|
                        0 <= k < self.fulfillments@.len() implies (
                    #[trigger] self.fulfillments@[k]).value@.len() >= 8 by {
                        if k < pre.fulfillments@.len() {
                            assert(self.fulfillments@[k] == pre.fulfillments@[k]);
                        }
                    }
                    assert forall|k: int| 0 <= k < self.vaults@.len() implies self.vault_valid(
                        #[trigger] self.vaults@[k].vault,
                    ) by {
                        assert(pre.vault_valid(pre.vaults@[k].vault));
                    }
                    assert forall|k: int|
                        0 <= k < self.participants@.len() implies self.participant_valid(
                        #[trigger] self.participants@[k],
                    ) by {
                        assert(pre.participant_valid(pre.participants@[k]));
                    }
                    assert(self.wf());
                }
                true
            },
        }
    }
}

} // verus!
