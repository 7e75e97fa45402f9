use on_chain_lottery::errors::{Failure, VaultError};
use on_chain_lottery::events::{
    DepositEvent, InitializeVaultEvent, ToggleLockEvent, WinnerClaimedEvent, WinnerDrawnEvent,
};
use on_chain_lottery::state::DrawStrategy;
use on_chain_lottery::world::World;

const AUTH: u64 = 1;
const USER_A: u64 = 100;
const USER_B: u64 = 101;
const USER_C: u64 = 102;

/// Full naive-strategy round: three deposits take slots 0, 1, 2; the clock
/// value at settle picks the winner by modulo; the winner's claim drains the
/// vault; the vault then no longer exists.
#[test]
fn full_round_naive_three_deposits() {
    let mut w = World::new();
    w.set_slot(10);
    w.credit(USER_A, 50);
    w.credit(USER_B, 50);
    w.credit(USER_C, 50);

    let ev = w.init_vault(AUTH, false, DrawStrategy::Naive);
    assert_eq!(
        ev,
        Ok(InitializeVaultEvent { vault: AUTH, vault_authority: AUTH, locked: false })
    );

    assert_eq!(
        w.deposit(AUTH, USER_A, 5),
        Ok(DepositEvent { amount: 5, user: USER_A, vault: AUTH })
    );
    assert_eq!(
        w.deposit(AUTH, USER_B, 10),
        Ok(DepositEvent { amount: 10, user: USER_B, vault: AUTH })
    );
    assert_eq!(
        w.deposit(AUTH, USER_C, 2),
        Ok(DepositEvent { amount: 2, user: USER_C, vault: AUTH })
    );
    assert_eq!(w.get_participant(AUTH, USER_A).unwrap().id, 0);
    assert_eq!(w.get_participant(AUTH, USER_B).unwrap().id, 1);
    assert_eq!(w.get_participant(AUTH, USER_C).unwrap().id, 2);
    assert_eq!(w.get_vault(AUTH).unwrap().participant_count, 3);
    assert_eq!(w.get_vault_balance(AUTH), 17);
    assert_eq!(w.get_balance(USER_C), 48);

    assert_eq!(
        w.toggle_lock(AUTH),
        Ok(ToggleLockEvent { vault: AUTH, vault_authority: AUTH, locked: true })
    );

    w.set_slot(107);
    let drawn = w.settle_draw(AUTH, None);
    assert_eq!(drawn, Ok(WinnerDrawnEvent { vault: AUTH, winner_id: 107 % 3 }));
    let winner_id = 107 % 3;
    assert_eq!(winner_id, 2);
    let v = w.get_vault(AUTH).unwrap();
    assert!(v.drawn);
    assert_eq!(v.winner_id, winner_id);

    // Slot 2 belongs to user C: C claims the pooled 17 units.
    assert_eq!(
        w.claim_if_winner(AUTH, USER_C),
        Ok(WinnerClaimedEvent { vault: AUTH, winner: USER_C, amount: 17 })
    );
    assert_eq!(w.get_balance(USER_C), 48 + 17);
    assert_eq!(w.get_balance(USER_A), 45);
    assert_eq!(w.get_balance(USER_B), 40);

    // The vault is destroyed: anything addressed to it is a missing record.
    assert!(w.get_vault(AUTH).is_none());
    assert_eq!(w.toggle_lock(AUTH), Err(Failure::MissingRecord));
    assert_eq!(w.deposit(AUTH, USER_A, 1), Err(Failure::MissingRecord));
    assert_eq!(w.commit_draw(AUTH, 0), Err(Failure::MissingRecord));
    assert_eq!(w.settle_draw(AUTH, None), Err(Failure::MissingRecord));
    assert_eq!(w.claim_if_winner(AUTH, USER_C), Err(Failure::MissingRecord));
}

/// A deposit above the caller's balance fails `InsufficientBalance` and
/// changes nothing.
#[test]
fn deposit_exceeding_balance_changes_nothing() {
    let mut w = World::new();
    w.set_slot(3);
    w.credit(USER_A, 4);
    w.init_vault(AUTH, false, DrawStrategy::Naive).unwrap();

    assert_eq!(
        w.deposit(AUTH, USER_A, 5),
        Err(Failure::Program(VaultError::InsufficientBalance))
    );
    assert_eq!(w.get_balance(USER_A), 4);
    assert_eq!(w.get_vault_balance(AUTH), 0);
    assert_eq!(w.get_vault(AUTH).unwrap().participant_count, 0);
    assert!(w.get_participant(AUTH, USER_A).is_none());
}

/// Committing while the vault is not locked fails `VaultNotLocked`.
#[test]
fn commit_unlocked_fails() {
    let mut w = World::new();
    w.credit(USER_A, 10);
    w.init_vault(AUTH, false, DrawStrategy::Oracle).unwrap();
    w.deposit(AUTH, USER_A, 1).unwrap();
    assert_eq!(
        w.commit_draw(AUTH, 42),
        Err(Failure::Program(VaultError::VaultNotLocked))
    );
}

/// The second of two settles fails `AlreadyDrawn`.
#[test]
fn second_settle_fails_already_drawn() {
    let mut w = World::new();
    w.credit(USER_A, 10);
    w.init_vault(AUTH, false, DrawStrategy::Naive).unwrap();
    w.deposit(AUTH, USER_A, 1).unwrap();
    w.toggle_lock(AUTH).unwrap();
    assert!(w.settle_draw(AUTH, None).is_ok());
    assert_eq!(
        w.settle_draw(AUTH, None),
        Err(Failure::Program(VaultError::AlreadyDrawn))
    );
}

/// A claim by a user whose slot is not the winner fails `InvalidWinner`.
#[test]
fn claim_by_non_winner_fails() {
    let mut w = World::new();
    w.credit(USER_A, 10);
    w.credit(USER_B, 10);
    w.init_vault(AUTH, false, DrawStrategy::Operator).unwrap();
    w.deposit(AUTH, USER_A, 3).unwrap();
    w.deposit(AUTH, USER_B, 3).unwrap();
    w.toggle_lock(AUTH).unwrap();
    // The authority declares slot 0 (user A) the winner.
    assert_eq!(
        w.settle_draw(AUTH, Some(0)),
        Ok(WinnerDrawnEvent { vault: AUTH, winner_id: 0 })
    );
    assert_eq!(
        w.claim_if_winner(AUTH, USER_B),
        Err(Failure::Program(VaultError::InvalidWinner))
    );
    // The rightful winner can still claim.
    assert_eq!(
        w.claim_if_winner(AUTH, USER_A),
        Ok(WinnerClaimedEvent { vault: AUTH, winner: USER_A, amount: 6 })
    );
}

/// Oracle strategy: settling before the oracle fulfills fails closed with
/// `RandomnessNotResolved`; after fulfillment it succeeds deterministically
/// from the fulfilled bytes.
#[test]
fn oracle_settle_waits_for_fulfillment() {
    let mut w = World::new();
    w.credit(USER_A, 10);
    w.credit(USER_B, 10);
    w.init_vault(AUTH, false, DrawStrategy::Oracle).unwrap();
    w.deposit(AUTH, USER_A, 1).unwrap();
    w.deposit(AUTH, USER_B, 1).unwrap();
    w.toggle_lock(AUTH).unwrap();

    let seed = 7u64;
    assert_eq!(w.commit_draw(AUTH, seed), Ok(()));
    let v = w.get_vault(AUTH).unwrap();
    assert_eq!(v.randomness_account, Some(seed));

    assert_eq!(
        w.settle_draw(AUTH, None),
        Err(Failure::Program(VaultError::RandomnessNotResolved))
    );
    assert_eq!(
        w.settle_draw(AUTH, None),
        Err(Failure::Program(VaultError::RandomnessNotResolved))
    );

    // The oracle delivers 64 bytes whose first eight read as 5 little-endian.
    let mut value = vec![0u8; 64];
    value[0] = 5;
    assert!(w.fulfill_randomness(seed, value));

    // 5 mod 2 participants = slot 1: user B.
    assert_eq!(
        w.settle_draw(AUTH, None),
        Ok(WinnerDrawnEvent { vault: AUTH, winner_id: 1 })
    );
    assert_eq!(
        w.claim_if_winner(AUTH, USER_B),
        Ok(WinnerClaimedEvent { vault: AUTH, winner: USER_B, amount: 2 })
    );
}
