//! A deterministic on-chain escrow-and-dispute engine: the core state machine
//! of a peer-to-peer payment protocol with locked-reserve semantics, together
//! with a currency registry, an identities module with credibility scores, a
//! stake-weighted resolver network, and a dispute-resolution workflow.
//!
//! The whole engine is a single [`world::World`] value. User-facing calls are
//! methods on it; once per block the deferred-work sweeps process the queues
//! of expiring payments, auto-completing payments, finalizing disputes and
//! releasable pending funds. The host runtime (block production, the ledger
//! backend, the randomness beacon, the clock) is modelled by plain state that
//! the embedder drives: balances live in [`ledger`], the clock and beacon are
//! fields of the world set at block boundaries.

pub mod currencies;
pub mod disputes;
pub mod hashing;
pub mod identities;
pub mod ledger;
pub mod payments;
pub mod resolvers;
pub mod store;
pub mod types;
pub mod util;
pub mod world;

pub use store::Store;
pub use world::World;
