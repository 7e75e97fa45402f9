//! A single-round, winner-take-all lottery vault.
//!
//! Participants escrow funds into a vault, the vault's authority locks entry,
//! a winner is selected through one of three interchangeable randomness
//! strategies, and the winner claims the entire escrowed balance.
//!
//! The transactional substrate that the vault lives on — atomic, serialized
//! application of each instruction, records addressed by deterministic derived
//! keys, balance transfer, and the external randomness oracle — is modelled by
//! [`world::World`]: a store of plain records together with the ledger clock,
//! user balances and oracle fulfillments.  Every instruction is a method on
//! `World` whose contract states exactly when it succeeds, which error it
//! returns otherwise, and how the store changes.

pub mod errors;
pub mod events;
pub mod state;
pub mod store;
pub mod randomness;
pub mod world;
pub mod lifecycle;
pub mod draw;
pub mod settlement;
pub mod laws;
