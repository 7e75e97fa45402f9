use on_chain_lottery::errors::Failure;
use on_chain_lottery::events::WinnerDrawnEvent;
use on_chain_lottery::randomness::u64_from_le_prefix;
use on_chain_lottery::state::DrawStrategy;
use on_chain_lottery::world::World;

const AUTH: u64 = 1;

/// The first eight bytes are read little-endian: byte 0 least significant.
#[test]
fn le_prefix_exact_values() {
    assert_eq!(u64_from_le_prefix(&vec![0, 0, 0, 0, 0, 0, 0, 0]), 0);
    assert_eq!(u64_from_le_prefix(&vec![1, 0, 0, 0, 0, 0, 0, 0]), 1);
    assert_eq!(u64_from_le_prefix(&vec![0x39, 0x30, 0, 0, 0, 0, 0, 0]), 12345);
    assert_eq!(
        u64_from_le_prefix(&vec![1, 2, 3, 4, 5, 6, 7, 8]),
        0x0807060504030201
    );
    assert_eq!(
        u64_from_le_prefix(&vec![0xff; 8]),
        u64::MAX
    );
    // Bytes past the eighth are ignored.
    assert_eq!(
        u64_from_le_prefix(&vec![9, 0, 0, 0, 0, 0, 0, 0, 0xaa, 0xbb]),
        9
    );
}

fn world_with_participants(n: u64, strategy: DrawStrategy) -> World {
    let mut w = World::new();
    for u in 0..n {
        w.credit(1000 + u, 10);
    }
    w.init_vault(AUTH, false, strategy).unwrap();
    for u in 0..n {
        w.deposit(AUTH, 1000 + u, 1).unwrap();
    }
    w.toggle_lock(AUTH).unwrap();
    w
}

/// The naive draw takes the ledger clock modulo the participant count; the
/// winner always lies in range.
#[test]
fn naive_winner_is_clock_mod_count() {
    let mut w = world_with_participants(5, DrawStrategy::Naive);
    w.set_slot(999);
    assert_eq!(
        w.settle_draw(AUTH, None),
        Ok(WinnerDrawnEvent { vault: AUTH, winner_id: 999 % 5 })
    );
    let v = w.get_vault(AUTH).unwrap();
    assert!(v.winner_id < v.participant_count);
    assert_eq!(v.winner_id, 4);
}

/// The oracle draw reduces the little-endian prefix of the fulfilled value
/// modulo the participant count.
#[test]
fn oracle_winner_from_fulfilled_bytes() {
    let mut w = world_with_participants(3, DrawStrategy::Oracle);
    w.commit_draw(AUTH, 21).unwrap();
    let mut bytes = vec![0u8; 64];
    bytes[0] = 0x39;
    bytes[1] = 0x30;  // 12345 little-endian
    assert!(w.fulfill_randomness(21, bytes));
    assert_eq!(
        w.settle_draw(AUTH, None),
        Ok(WinnerDrawnEvent { vault: AUTH, winner_id: 12345 % 3 })
    );
    let v = w.get_vault(AUTH).unwrap();
    assert!(v.winner_id < v.participant_count);
}

/// A handle is fulfilled at most once: a second delivery is ignored and the
/// settle reads the first value.
#[test]
fn second_fulfillment_is_ignored() {
    let mut w = world_with_participants(10, DrawStrategy::Oracle);
    w.commit_draw(AUTH, 3).unwrap();
    let mut first = vec![0u8; 64];
    first[0] = 7;
    let mut second = vec![0u8; 64];
    second[0] = 8;
    assert!(w.fulfill_randomness(3, first));
    assert!(!w.fulfill_randomness(3, second));
    assert_eq!(
        w.settle_draw(AUTH, None),
        Ok(WinnerDrawnEvent { vault: AUTH, winner_id: 7 })
    );
}

/// A fulfillment delivered under a different handle than the committed one
/// does not resolve the vault's request.
#[test]
fn fulfillment_for_other_handle_does_not_resolve() {
    let mut w = world_with_participants(2, DrawStrategy::Oracle);
    w.commit_draw(AUTH, 5).unwrap();
    assert!(w.fulfill_randomness(6, vec![1u8; 64]));
    assert!(matches!(w.settle_draw(AUTH, None), Err(Failure::Program(_))));
    assert!(w.fulfill_randomness(5, vec![1u8; 64]));
    assert!(w.settle_draw(AUTH, None).is_ok());
}

/// Re-committing before settlement replaces the pending request: the draw
/// then follows the newest handle.
#[test]
fn recommit_replaces_pending_request() {
    let mut w = world_with_participants(2, DrawStrategy::Oracle);
    w.commit_draw(AUTH, 5).unwrap();
    w.commit_draw(AUTH, 9).unwrap();
    assert_eq!(w.get_vault(AUTH).unwrap().randomness_account, Some(9));
    let mut bytes = vec![0u8; 64];
    bytes[0] = 3;
    assert!(w.fulfill_randomness(9, bytes));
    assert_eq!(
        w.settle_draw(AUTH, None),
        Ok(WinnerDrawnEvent { vault: AUTH, winner_id: 1 })
    );
}
