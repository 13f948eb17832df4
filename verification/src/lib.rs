//! Deterministic ledger core.
//!
//! Typed instructions are executed against a world state inside atomic
//! state transactions; queries read the world in the order of its
//! identifiers; committed blocks form a hash-linked chain and are kept in
//! an append-only block store with a fixed-stride index.
//!
//! - [`numeric`], [`name`], [`id`], [`metadata`]: the value types.
//! - [`domain`], [`asset`], [`nft`]: the entities; [`registry`]: the ordered
//!   collection that holds them; [`world`]: all of them together.
//! - [`state`], [`isi`], [`transaction`], [`events`], [`error`]: execution.
//! - [`query`], [`live_query`]: reading.
//! - [`block`], [`kura`]: the chain and its store.
//! - [`cli`], [`multisig`], [`trigger`]: what clients and triggers decide
//!   before they submit.
//! - [`text`], [`sequence`]: helpers.

pub mod asset;
pub mod block;
pub mod cli;
pub mod domain;
pub mod error;
pub mod events;
pub mod id;
pub mod isi;
pub mod kura;
pub mod live_query;
pub mod metadata;
pub mod multisig;
pub mod name;
pub mod nft;
pub mod numeric;
pub mod query;
pub mod registry;
pub mod sequence;
pub mod state;
pub mod text;
pub mod transaction;
pub mod trigger;
pub mod world;
