use vstd::prelude::*;

verus! {

/// One slot for one type in one layer: either a concrete contribution, or an
/// explicit instruction to stop inheritance from older layers.
///
/// The default state — the type was never touched in the layer — is "absent"
/// (no slot at all), which is distinct from `ExplicitlyUnset`.
#[derive(Debug)]
pub enum Value<T> {
    /// A concrete contribution.
    Stored(T),
    /// Shadows anything contributed by older layers without contributing a
    /// value itself.
    ExplicitlyUnset,
}

/// Declares that the type identified by `id` is stored under the *replace*
/// policy: a read returns the value from the newest layer that has any slot
/// for the type, and an explicit unset in that layer hides everything older.
///
/// The declaration is global to the type: every producer and consumer of the
/// same type must use the same key. A `ReplaceKey` and an [`AppendKey`] with
/// the same `id` name two unrelated slots, exactly as two distinct marker
/// types would.
#[derive(Clone, Copy, Debug, Hash, PartialEq, Eq, Structural)]
pub struct ReplaceKey {
    /// The runtime identity of the stored type.
    pub id: u64,
}

/// Declares that the type identified by `id` is stored under the *append*
/// policy: every layer's contributions accumulate, read back most recent
/// first, until a layer with an explicit clear truncates the walk.
#[derive(Clone, Copy, Debug, Hash, PartialEq, Eq, Structural)]
pub struct AppendKey {
    /// The runtime identity of the stored type.
    pub id: u64,
}

impl ReplaceKey {
    /// Declare a replace-policy storable type with identity `id`.
    pub fn new(id: u64) -> (k: ReplaceKey)
        ensures
            k.id == id,
    {
        ReplaceKey { id }
    }
}

impl AppendKey {
    /// Declare an append-policy storable type with identity `id`.
    pub fn new(id: u64) -> (k: AppendKey)
        ensures
            k.id == id,
    {
        AppendKey { id }
    }
}

/// The key a slot is physically stored under: the type identity together with
/// the policy the type declared. Because the policy is part of the key, the
/// shape of the stored cell is determined by the key that reached it.
#[derive(Clone, Copy, Debug, PartialEq, Eq, Structural)]
pub(crate) enum StoreKey {
    Replace(u64),
    Append(u64),
}

} // verus!
