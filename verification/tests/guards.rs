use on_chain_lottery::errors::{Failure, VaultError};
use on_chain_lottery::state::{DrawStrategy, UserAccount, Vault, VaultRecord};
use on_chain_lottery::world::World;

const AUTH: u64 = 1;
const USER_A: u64 = 100;
const USER_B: u64 = 101;

/// The draw guards are checked in a fixed order; with several violated at
/// once, the first one is reported: an unlocked, empty vault reports
/// `VaultNotLocked`, not `NoParticipants`.
#[test]
fn draw_guard_order_lock_before_participants() {
    let mut w = World::new();
    w.init_vault(AUTH, false, DrawStrategy::Naive).unwrap();
    assert_eq!(
        w.commit_draw(AUTH, 0),
        Err(Failure::Program(VaultError::VaultNotLocked))
    );
    assert_eq!(
        w.settle_draw(AUTH, None),
        Err(Failure::Program(VaultError::VaultNotLocked))
    );
}

/// A locked vault with no participants reports `NoParticipants` on both
/// draw operations.
#[test]
fn draw_guard_no_participants() {
    let mut w = World::new();
    w.init_vault(AUTH, true, DrawStrategy::Naive).unwrap();
    assert_eq!(
        w.commit_draw(AUTH, 0),
        Err(Failure::Program(VaultError::NoParticipants))
    );
    assert_eq!(
        w.settle_draw(AUTH, None),
        Err(Failure::Program(VaultError::NoParticipants))
    );
}

/// Once drawn, both draw operations report `AlreadyDrawn`, before any
/// strategy-specific check runs.
#[test]
fn draw_guard_already_drawn() {
    let mut w = World::new();
    w.credit(USER_A, 10);
    w.init_vault(AUTH, false, DrawStrategy::Naive).unwrap();
    w.deposit(AUTH, USER_A, 1).unwrap();
    w.toggle_lock(AUTH).unwrap();
    w.settle_draw(AUTH, None).unwrap();
    assert_eq!(
        w.commit_draw(AUTH, 0),
        Err(Failure::Program(VaultError::AlreadyDrawn))
    );
    assert_eq!(
        w.settle_draw(AUTH, None),
        Err(Failure::Program(VaultError::AlreadyDrawn))
    );
}

/// While the vault is locked, every deposit fails `VaultLocked` — even one
/// the depositor could not afford, because the lock is checked first.
#[test]
fn deposit_locked_checked_before_balance() {
    let mut w = World::new();
    w.init_vault(AUTH, true, DrawStrategy::Naive).unwrap();
    // USER_A holds nothing at all.
    assert_eq!(
        w.deposit(AUTH, USER_A, 5),
        Err(Failure::Program(VaultError::VaultLocked))
    );
}

/// A second deposit by the same user in the same round fails with the
/// substrate's create-once error, not a vault-specific one.
#[test]
fn second_deposit_same_user_fails_record_exists() {
    let mut w = World::new();
    w.credit(USER_A, 10);
    w.init_vault(AUTH, false, DrawStrategy::Naive).unwrap();
    w.deposit(AUTH, USER_A, 1).unwrap();
    assert_eq!(w.deposit(AUTH, USER_A, 1), Err(Failure::RecordExists));
    assert_eq!(w.get_vault(AUTH).unwrap().participant_count, 1);
    assert_eq!(w.get_balance(USER_A), 9);
}

/// Creating a vault twice for the same authority fails the same way.
#[test]
fn second_init_vault_fails_record_exists() {
    let mut w = World::new();
    w.init_vault(AUTH, false, DrawStrategy::Naive).unwrap();
    assert_eq!(
        w.init_vault(AUTH, true, DrawStrategy::Oracle),
        Err(Failure::RecordExists)
    );
}

/// A deposit that would wrap the participant counter fails `Overflow`.
#[test]
fn deposit_counter_overflow() {
    let w0 = World {
        slot: 5,
        vaults: vec![VaultRecord {
            vault: Vault {
                vault_authority: AUTH,
                lottery_id: 1,
                locked: false,
                strategy: DrawStrategy::Naive,
                participant_count: u64::MAX,
                randomness_account: None,
                commit_slot: 0,
                winner_id: 0,
                drawn: false,
                claimed: false,
            },
            balance: 0,
        }],
        participants: vec![],
        accounts: vec![UserAccount { user: USER_A, balance: 10 }],
        fulfillments: vec![],
    };
    let mut w = w0;
    assert_eq!(
        w.deposit(AUTH, USER_A, 1),
        Err(Failure::Program(VaultError::Overflow))
    );
    assert_eq!(w.get_balance(USER_A), 10);
}

/// Closing a participant frees the (vault, user) key: the user can re-enter
/// and receives the next slot, not their old one.
#[test]
fn close_then_redeposit_takes_next_slot() {
    let mut w = World::new();
    w.credit(USER_A, 10);
    w.credit(USER_B, 10);
    w.init_vault(AUTH, false, DrawStrategy::Naive).unwrap();
    w.deposit(AUTH, USER_A, 1).unwrap();
    w.deposit(AUTH, USER_B, 1).unwrap();
    assert_eq!(w.close_participant(AUTH, USER_A), Ok(()));
    assert!(w.get_participant(AUTH, USER_A).is_none());
    w.deposit(AUTH, USER_A, 1).unwrap();
    assert_eq!(w.get_participant(AUTH, USER_A).unwrap().id, 2);
    assert_eq!(w.get_vault(AUTH).unwrap().participant_count, 3);
}

/// Closing a missing participant record is a missing-record failure.
#[test]
fn close_missing_participant_fails() {
    let mut w = World::new();
    w.init_vault(AUTH, false, DrawStrategy::Naive).unwrap();
    assert_eq!(w.close_participant(AUTH, USER_A), Err(Failure::MissingRecord));
}

/// A declared winner who closes their participant record before claiming
/// forfeits the prize: the claim then fails `InvalidWinner`.
#[test]
fn winner_forfeits_by_closing_before_claim() {
    let mut w = World::new();
    w.credit(USER_A, 10);
    w.init_vault(AUTH, false, DrawStrategy::Operator).unwrap();
    w.deposit(AUTH, USER_A, 5).unwrap();
    w.toggle_lock(AUTH).unwrap();
    w.settle_draw(AUTH, Some(0)).unwrap();
    w.close_participant(AUTH, USER_A).unwrap();
    assert_eq!(
        w.claim_if_winner(AUTH, USER_A),
        Err(Failure::Program(VaultError::InvalidWinner))
    );
}

/// The lock may be toggled even after the draw; entry reopens and a late
/// deposit is accepted.
#[test]
fn toggle_after_draw_is_permitted() {
    let mut w = World::new();
    w.credit(USER_A, 10);
    w.credit(USER_B, 10);
    w.init_vault(AUTH, false, DrawStrategy::Naive).unwrap();
    w.deposit(AUTH, USER_A, 1).unwrap();
    w.toggle_lock(AUTH).unwrap();
    w.settle_draw(AUTH, None).unwrap();
    assert!(w.toggle_lock(AUTH).is_ok());
    assert!(!w.get_vault(AUTH).unwrap().locked);
    assert!(w.deposit(AUTH, USER_B, 1).is_ok());
}

/// Claiming before the draw fails `NotDrawn`; claiming while unlocked fails
/// `VaultNotLocked`.
#[test]
fn claim_guards() {
    let mut w = World::new();
    w.credit(USER_A, 10);
    w.init_vault(AUTH, false, DrawStrategy::Naive).unwrap();
    w.deposit(AUTH, USER_A, 1).unwrap();
    assert_eq!(
        w.claim_if_winner(AUTH, USER_A),
        Err(Failure::Program(VaultError::VaultNotLocked))
    );
    w.toggle_lock(AUTH).unwrap();
    assert_eq!(
        w.claim_if_winner(AUTH, USER_A),
        Err(Failure::Program(VaultError::NotDrawn))
    );
}

/// A claim by a user with no participant record at all fails
/// `InvalidWinner`, the same as a slot mismatch.
#[test]
fn claim_without_participant_fails_invalid_winner() {
    let mut w = World::new();
    w.credit(USER_A, 10);
    w.init_vault(AUTH, false, DrawStrategy::Naive).unwrap();
    w.deposit(AUTH, USER_A, 1).unwrap();
    w.toggle_lock(AUTH).unwrap();
    w.settle_draw(AUTH, None).unwrap();
    assert_eq!(
        w.claim_if_winner(AUTH, USER_B),
        Err(Failure::Program(VaultError::InvalidWinner))
    );
}

/// An oracle-strategy settle before any commit fails
/// `RandomnessNotCommitted`.
#[test]
fn oracle_settle_before_commit_fails() {
    let mut w = World::new();
    w.credit(USER_A, 10);
    w.init_vault(AUTH, false, DrawStrategy::Oracle).unwrap();
    w.deposit(AUTH, USER_A, 1).unwrap();
    w.toggle_lock(AUTH).unwrap();
    assert_eq!(
        w.settle_draw(AUTH, None),
        Err(Failure::Program(VaultError::RandomnessNotCommitted))
    );
}

/// The operator strategy rejects an out-of-range winner id, and a missing
/// one, with `InvalidWinner`.
#[test]
fn operator_winner_must_be_in_range() {
    let mut w = World::new();
    w.credit(USER_A, 10);
    w.credit(USER_B, 10);
    w.init_vault(AUTH, false, DrawStrategy::Operator).unwrap();
    w.deposit(AUTH, USER_A, 1).unwrap();
    w.deposit(AUTH, USER_B, 1).unwrap();
    w.toggle_lock(AUTH).unwrap();
    assert_eq!(
        w.settle_draw(AUTH, Some(2)),
        Err(Failure::Program(VaultError::InvalidWinner))
    );
    assert_eq!(
        w.settle_draw(AUTH, None),
        Err(Failure::Program(VaultError::InvalidWinner))
    );
    assert!(w.settle_draw(AUTH, Some(1)).is_ok());
    assert_eq!(w.get_vault(AUTH).unwrap().winner_id, 1);
}

/// With the draw already settled and the vault since unlocked, the lock
/// guard still comes first: `VaultNotLocked`, not `AlreadyDrawn`.
#[test]
fn draw_guard_lock_reported_before_already_drawn() {
    let mut w = World::new();
    w.credit(USER_A, 10);
    w.init_vault(AUTH, false, DrawStrategy::Naive).unwrap();
    w.deposit(AUTH, USER_A, 1).unwrap();
    w.toggle_lock(AUTH).unwrap();
    w.settle_draw(AUTH, None).unwrap();
    w.toggle_lock(AUTH).unwrap();
    assert_eq!(
        w.commit_draw(AUTH, 0),
        Err(Failure::Program(VaultError::VaultNotLocked))
    );
    assert_eq!(
        w.settle_draw(AUTH, None),
        Err(Failure::Program(VaultError::VaultNotLocked))
    );
}
