use vstd::prelude::*;

verus! {

/// Domain-level errors raised by the lottery program's own guards.
///
/// Every error aborts the triggering instruction; the substrate applies each
/// instruction atomically, so a failed instruction leaves no partial writes.
#[derive(Clone, Copy, Debug, PartialEq, Eq, Structural)]
pub enum VaultError {
    /// Deposit attempted while the vault is locked.
    VaultLocked,
    /// The participant counter would wrap past its range.
    Overflow,
    /// Deposit amount exceeds the caller's available balance.
    InsufficientBalance,
    /// A draw operation on a vault with no participants.
    NoParticipants,
    /// A lock-gated operation while the vault is not locked.
    VaultNotLocked,
    /// Oracle-strategy settle attempted before any commit.
    RandomnessNotCommitted,
    /// Oracle-strategy settle before the oracle fulfilled the request.
    RandomnessNotResolved,
    /// A draw operation after the winner was already drawn.
    AlreadyDrawn,
    /// Claim attempted before the winner was drawn.
    NotDrawn,
    /// A draw or claim operation after the prize was claimed.
    AlreadyClaimed,
    /// Claim by a non-winner, or an operator-supplied winner id out of range.
    InvalidWinner,
}

/// Everything an instruction can fail with: a domain error from the program's
/// guards, or one of the record-storage failures that the substrate reports
/// before the program's own code runs.
#[derive(Clone, Copy, Debug, PartialEq, Eq, Structural)]
pub enum Failure {
    /// One of the program's guards rejected the instruction.
    Program(VaultError),
    /// The instruction addressed a record (by its derived key) that does not
    /// exist — in particular, any instruction aimed at a vault that was
    /// destroyed by a successful claim fails this way.
    MissingRecord,
    /// The instruction tried to create a record whose derived key is already
    /// taken; record creation happens at most once per key.
    RecordExists,
}

} // verus!
