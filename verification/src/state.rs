use vstd::prelude::*;

use crate::errors::VaultError;

verus! {

/// How the winner of a round is selected.  The strategy is a configuration
/// choice fixed at vault creation; all three converge on the same post-state:
/// exactly one `winner_id` in `[0, participant_count)` and `drawn == true`,
/// reached exactly once per round.
#[derive(Clone, Copy, Debug, PartialEq, Eq, Structural)]
pub enum DrawStrategy {
    /// Settle immediately from the current ledger clock.  The clock is
    /// visible ahead of the settling transaction, so a party controlling
    /// transaction timing can bias the outcome; acceptable only for
    /// non-adversarial demonstration use.
    Naive,
    /// Two-phase handshake with an external randomness oracle: commit issues
    /// a request under a caller-chosen seed, settle reads the fulfillment.
    Oracle,
    /// The authority supplies the winner id directly and is trusted to have
    /// derived it fairly off-chain; the weakest trust model.
    Operator,
}

/// Per-authority escrow and lottery-round record.  At most one vault exists
/// per authority; its record key is derived from the authority's identity.
#[derive(Clone, Copy, Debug)]
pub struct Vault {
    /// Identity permitted to lock/unlock the vault and drive the draw.
    pub vault_authority: u64,
    /// Monotonically distinguishing round identifier, assigned at creation
    /// from the ledger clock.
    pub lottery_id: u64,
    /// Entry is open iff `locked` is false.
    pub locked: bool,
    /// How this vault's winner will be selected.
    pub strategy: DrawStrategy,
    /// Source of truth for participant id assignment, and the modulus used
    /// in winner selection.  Never decreases while the vault lives.
    pub participant_count: u64,
    /// Handle of the pending/resolved oracle randomness request; empty until
    /// an oracle-strategy commit records one.
    pub randomness_account: Option<u64>,
    /// Ledger clock value recorded at commit, for auditability.
    pub commit_slot: u64,
    /// Meaningful only when `drawn`; then always in `[0, participant_count)`.
    pub winner_id: u64,
    /// Set (once) by a successful settle; never reset.
    pub drawn: bool,
    /// Set (once) by a successful claim; never reset.  A claimed vault is
    /// destroyed in the same instruction, so no live record carries `true`.
    pub claimed: bool,
}

impl Vault {
    /// The state a vault is born with.
    pub open spec fn fresh(
        vault_authority: u64,
        locked: bool,
        strategy: DrawStrategy,
        lottery_id: u64,
    ) -> Vault {
        Vault {
            vault_authority,
            lottery_id,
            locked,
            strategy,
            participant_count: 0,
            randomness_account: None,
            commit_slot: 0,
            winner_id: 0,
            drawn: false,
            claimed: false,
        }
    }
}

/// The common draw guards, shared by commit and settle, in their fixed
/// evaluation order: the first violated guard is the one reported, however
/// many are violated at once.  `None` means all guards pass.
pub open spec fn draw_guard(v: Vault) -> Option<VaultError> {
    if !v.locked {
        Some(VaultError::VaultNotLocked)
    } else if v.participant_count == 0 {
        Some(VaultError::NoParticipants)
    } else if v.drawn {
        Some(VaultError::AlreadyDrawn)
    } else if v.claimed {
        Some(VaultError::AlreadyClaimed)
    } else {
        None
    }
}

/// Per-user entry record, scoped to one vault round.  At most one live
/// participant exists per (vault, user) pair; its record key is derived from
/// the pair.
#[derive(Clone, Copy, Debug, PartialEq, Eq, Structural)]
pub struct Participant {
    /// Authority identity of the owning vault (the vault's key determinant).
    pub vault: u64,
    /// Copy of the vault's round at creation, so a stale participant from a
    /// prior round is detectable.
    pub lottery_id: u64,
    /// Owning identity; only this user may close the record.
    pub user: u64,
    /// Draw slot, assigned as the vault's `participant_count` at creation.
    pub id: u64,
    /// Creation marker.
    pub is_initialized: bool,
}

/// A vault's record together with the balance its account holds: the escrowed
/// deposits plus whatever the substrate placed there (its storage
/// reservation).  A successful claim pays the whole balance to the winner.
#[derive(Clone, Copy, Debug)]
pub struct VaultRecord {
    pub vault: Vault,
    pub balance: u64,
}

/// A user's ledger account.
#[derive(Clone, Copy, Debug, PartialEq, Eq, Structural)]
pub struct UserAccount {
    pub user: u64,
    pub balance: u64,
}

/// A resolved oracle randomness request: the fulfilled value, keyed by the
/// handle the request was made under.
#[derive(Debug)]
pub struct Fulfillment {
    pub handle: u64,
    pub value: Vec<u8>,
}

} // verus!
