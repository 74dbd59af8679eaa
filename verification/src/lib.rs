//! A layered, type-indexed configuration store.
//!
//! Many independent producers — client-wide defaults, per-operation
//! overrides, per-attempt state, middleware stages — each contribute typed
//! values into a shared context without knowing about each other, while
//! consumers retrieve the *effective* value for a type according to
//! deterministic override rules, and earlier contributions are shared, not
//! copied, across many derived contexts.
//!
//! The pieces, leaf first:
//!
//! - [`Value`]: one slot for one type in one layer — a concrete
//!   contribution, or an explicit instruction to stop inheriting older ones.
//! - [`ReplaceKey`] / [`AppendKey`]: a value type becomes storable by
//!   declaring, once, which of the two merge policies it uses. The key
//!   carries the policy in its own type, so a policy mismatch cannot be
//!   expressed, and a slot can never be read under the wrong shape.
//! - [`Layer`]: a named, mutable, type-indexed store — the unit of
//!   configuration a single producer writes into.
//! - [`FrozenLayer`]: an immutable, shareable snapshot of a layer, reusable
//!   across many bags without duplication and reclaimable when uniquely
//!   owned.
//! - [`ConfigBag`]: an ordered stack of layers — one mutable current layer
//!   on top of a history of frozen ones — with merge-on-read semantics.
//!
//! The merge rules are the spec functions [`replace_lookup`] and
//! [`append_lookup`]; every read's contract is proved against them, and the
//! laws they obey are proved in [`laws`].

mod store;
mod items;
mod layer;
mod bag;
pub mod laws;

pub use store::{AppendKey, ReplaceKey, Value};
pub use items::{deref_items, ItemIter};
pub use layer::{items_cloned, stored_items_after_append, value_cloned, FrozenLayer, Layer};
pub use bag::{append_lookup, replace_lookup, ConfigBag};
