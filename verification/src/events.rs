use vstd::prelude::*;

verus! {

// Domain events, returned by each successful instruction so that observers
// (an append-only event log in a deployment) can follow the vault's life.
// Identities are plain numbers; a vault's record key is derived from its
// authority's identity, so events name a vault by that authority.

/// A vault was created.
#[derive(Clone, Copy, Debug, PartialEq, Eq, Structural)]
pub struct InitializeVaultEvent {
    /// Authority identity from which the vault's record key is derived.
    pub vault: u64,
    pub vault_authority: u64,
    pub locked: bool,
}

/// A user escrowed funds into a vault and received a draw slot.
#[derive(Clone, Copy, Debug, PartialEq, Eq, Structural)]
pub struct DepositEvent {
    pub amount: u64,
    pub user: u64,
    pub vault: u64,
}

/// The vault's entry lock was flipped.
#[derive(Clone, Copy, Debug, PartialEq, Eq, Structural)]
pub struct ToggleLockEvent {
    pub vault: u64,
    pub vault_authority: u64,
    /// The lock state after the toggle.
    pub locked: bool,
}

/// A winner id was settled for the vault's round.
#[derive(Clone, Copy, Debug, PartialEq, Eq, Structural)]
pub struct WinnerDrawnEvent {
    pub vault: u64,
    pub winner_id: u64,
}

/// The winner claimed the vault's entire balance; the vault was destroyed.
#[derive(Clone, Copy, Debug, PartialEq, Eq, Structural)]
pub struct WinnerClaimedEvent {
    pub vault: u64,
    pub winner: u64,
    pub amount: u64,
}

} // verus!
