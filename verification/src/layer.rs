use vstd::prelude::*;

use crate::items::{push_reversed, ItemIter};
use crate::store::{AppendKey, ReplaceKey, StoreKey, Value};
use std::sync::Arc;

verus! {

/// The physical cell a slot is stored in. The stored shape is determined by
/// the policy the type declared: one value for replace-policy types, a list
/// of values for append-policy types. A cell is only ever reached through a
/// key that carries the same policy, so reading a cell under the wrong shape
/// can never happen; that is an invariant of [`Layer`], not a runtime check.
#[derive(Debug)]
pub(crate) enum CellValue<V> {
    Replace(Value<V>),
    Append(Value<Vec<V>>),
}

/// One slot of a layer: the key a type's contribution is stored under,
/// together with its cell.
#[derive(Debug)]
pub(crate) struct Entry<V> {
    pub(crate) key: StoreKey,
    pub(crate) cell: CellValue<V>,
}

/// The abstract content of an append cell: the stored list of items, as a
/// sequence.
pub(crate) open spec fn app_cell_view<V>(c: Value<Vec<V>>) -> Value<Seq<V>> {
    match c {
        Value::Stored(items) => Value::Stored(items@),
        Value::ExplicitlyUnset => Value::ExplicitlyUnset,
    }
}

/// The replace-policy slots a sequence of entries describes, as a map from
/// type identity to slot state.
pub(crate) open spec fn rep_map_of<V>(s: Seq<Entry<V>>) -> Map<u64, Value<V>>
    decreases s.len(),
{
    if s.len() == 0 {
        Map::empty()
    } else {
        let rest = rep_map_of(s.drop_last());
        match s.last().key {
            StoreKey::Replace(id) => match s.last().cell {
                CellValue::Replace(c) => rest.insert(id, c),
                CellValue::Append(_) => rest,
            },
            StoreKey::Append(_) => rest,
        }
    }
}

/// The append-policy slots a sequence of entries describes.
pub(crate) open spec fn app_map_of<V>(s: Seq<Entry<V>>) -> Map<u64, Value<Seq<V>>>
    decreases s.len(),
{
    if s.len() == 0 {
        Map::empty()
    } else {
        let rest = app_map_of(s.drop_last());
        match s.last().key {
            StoreKey::Append(id) => match s.last().cell {
                CellValue::Append(c) => rest.insert(id, app_cell_view(c)),
                CellValue::Replace(_) => rest,
            },
            StoreKey::Replace(_) => rest,
        }
    }
}

/// At most one cell per store key.
pub(crate) open spec fn keys_distinct<V>(s: Seq<Entry<V>>) -> bool {
    forall|i: int, j: int| 0 <= i < j < s.len() ==> s[i].key != s[j].key
}

/// Every cell has the shape its key's policy prescribes.
pub(crate) open spec fn shapes_match<V>(s: Seq<Entry<V>>) -> bool {
    forall|i: int|
        0 <= i < s.len() ==> ((#[trigger] s[i].key) is Replace <==> s[i].cell is Replace)
}

/// No entry carries `key`, so the derived maps have no slot for it.
proof fn lemma_key_absent<V>(s: Seq<Entry<V>>, key: StoreKey)
    requires
        forall|j: int| 0 <= j < s.len() ==> s[j].key != key,
    ensures
        key matches StoreKey::Replace(id) ==> !rep_map_of(s).contains_key(id),
        key matches StoreKey::Append(id) ==> !app_map_of(s).contains_key(id),
    decreases s.len(),
{
    if s.len() > 0 {
        lemma_key_absent(s.drop_last(), key);
    }
}

/// The unique entry carrying `Replace(id)` is what the replace map holds.
proof fn lemma_rep_present<V>(s: Seq<Entry<V>>, id: u64, i: int)
    requires
        0 <= i < s.len(),
        keys_distinct(s),
        s[i].key == StoreKey::Replace(id),
        s[i].cell is Replace,
    ensures
        rep_map_of(s).contains_key(id),
        CellValue::Replace(rep_map_of(s)[id]) == s[i].cell,
    decreases s.len(),
{
    if i == s.len() - 1 {
    } else {
        lemma_rep_present(s.drop_last(), id, i);
        assert(s.last().key != StoreKey::Replace(id));
    }
}

/// The unique entry carrying `Append(id)` is what the append map holds.
proof fn lemma_app_present<V>(s: Seq<Entry<V>>, id: u64, i: int)
    requires
        0 <= i < s.len(),
        keys_distinct(s),
        s[i].key == StoreKey::Append(id),
        s[i].cell is Append,
    ensures
        app_map_of(s).contains_key(id),
        s[i].cell matches CellValue::Append(c) && app_map_of(s)[id] == app_cell_view(c),
    decreases s.len(),
{
    if i == s.len() - 1 {
    } else {
        lemma_app_present(s.drop_last(), id, i);
        assert(s.last().key != StoreKey::Append(id));
    }
}

/// Overwriting the entry at `i` with one that carries the same key updates
/// the map of that key's policy and leaves the other map untouched.
proof fn lemma_maps_update<V>(s: Seq<Entry<V>>, i: int, e: Entry<V>)
    requires
        0 <= i < s.len(),
        keys_distinct(s),
        e.key == s[i].key,
        (e.key is Replace <==> e.cell is Replace),
    ensures
        e.cell matches CellValue::Replace(c) ==> {
            &&& e.key matches StoreKey::Replace(id) && rep_map_of(s.update(i, e))
                == rep_map_of(s).insert(id, c)
            &&& app_map_of(s.update(i, e)) == app_map_of(s)
        },
        e.cell matches CellValue::Append(c) ==> {
            &&& e.key matches StoreKey::Append(id) && app_map_of(s.update(i, e))
                == app_map_of(s).insert(id, app_cell_view(c))
            &&& rep_map_of(s.update(i, e)) == rep_map_of(s)
        },
    decreases s.len(),
{
    if i == s.len() - 1 {
        assert(s.update(i, e).drop_last() =~= s.drop_last());
        assert(s.update(i, e).last() == e);
        match e.key {
            StoreKey::Replace(id) => {
                match (e.cell, s[i].cell) {
                    (CellValue::Replace(c), CellValue::Replace(c0)) => {
                        assert(rep_map_of(s.drop_last()).insert(id, c0).insert(id, c)
                            =~= rep_map_of(s.drop_last()).insert(id, c));
                    },
                    (CellValue::Replace(c), CellValue::Append(_)) => {},
                    _ => {},
                }
            },
            StoreKey::Append(id) => {
                match (e.cell, s[i].cell) {
                    (CellValue::Append(c), CellValue::Append(c0)) => {
                        assert(app_map_of(s.drop_last()).insert(id, app_cell_view(c0)).insert(
                            id,
                            app_cell_view(c),
                        ) =~= app_map_of(s.drop_last()).insert(id, app_cell_view(c)));
                    },
                    (CellValue::Append(c), CellValue::Replace(_)) => {},
                    _ => {},
                }
            },
        }
    } else {
        let prefix = s.drop_last();
        assert(s.update(i, e).drop_last() =~= prefix.update(i, e));
        assert(s.update(i, e).last() == s.last());
        lemma_maps_update(prefix, i, e);
        assert(s.last().key != e.key);
        // The final entry's insertion commutes with the update of a
        // different key in the prefix.
        match (e.key, s.last().key, e.cell, s.last().cell) {
            (
                StoreKey::Replace(id),
                StoreKey::Replace(id2),
                CellValue::Replace(c),
                CellValue::Replace(c2),
            ) => {
                assert(rep_map_of(prefix).insert(id, c).insert(id2, c2) =~= rep_map_of(
                    prefix,
                ).insert(id2, c2).insert(id, c));
            },
            (
                StoreKey::Append(id),
                StoreKey::Append(id2),
                CellValue::Append(c),
                CellValue::Append(c2),
            ) => {
                assert(app_map_of(prefix).insert(id, app_cell_view(c)).insert(
                    id2,
                    app_cell_view(c2),
                ) =~= app_map_of(prefix).insert(id2, app_cell_view(c2)).insert(
                    id,
                    app_cell_view(c),
                ));
            },
            _ => {},
        }
    }
}

/// Appending an entry for a key inserts into the map of that key's policy
/// and leaves the other map untouched.
proof fn lemma_maps_push<V>(s: Seq<Entry<V>>, e: Entry<V>)
    ensures
        e.cell matches CellValue::Replace(c) ==> (e.key matches StoreKey::Replace(id)
            ==> rep_map_of(s.push(e)) == rep_map_of(s).insert(id, c) && app_map_of(s.push(e))
            == app_map_of(s)),
        e.cell matches CellValue::Append(c) ==> (e.key matches StoreKey::Append(id)
            ==> app_map_of(s.push(e)) == app_map_of(s).insert(id, app_cell_view(c))
            && rep_map_of(s.push(e)) == rep_map_of(s)),
{
    assert(s.push(e).drop_last() =~= s);
    assert(s.push(e).last() == e);
}

/// A named, type-indexed store of contributed values; the unit of
/// configuration a single producer writes into.
///
/// A layer is created empty, mutated only while it is the exclusive top of a
/// [`crate::ConfigBag`], and becomes immutable the instant it is frozen.
///
/// The abstract state is two maps, [`Layer::rep_map`] for replace-policy
/// slots and [`Layer::app_map`] for append-policy slots; every operation's
/// contract is stated over them.
#[derive(Debug)]
pub struct Layer<V> {
    name: String,
    props: Vec<Entry<V>>,
}

impl<V> Layer<V> {
    /// At most one cell per key, and every cell of the shape its key's
    /// policy prescribes — the reason a stored cell can never be read under
    /// the wrong type.
    #[verifier::type_invariant]
    spec fn wf(self) -> bool {
        keys_distinct(self.props@) && shapes_match(self.props@)
    }

    /// The diagnostic name this layer was created with. It never affects
    /// merge semantics.
    pub closed spec fn spec_name(self) -> Seq<char> {
        self.name@
    }

    /// The replace-policy slots of this layer: for each declared type
    /// identity, a contributed value or an explicit unset.
    pub closed spec fn rep_map(self) -> Map<u64, Value<V>> {
        rep_map_of(self.props@)
    }

    /// The append-policy slots of this layer: for each declared type
    /// identity, the list of items appended in this layer (oldest first) or
    /// an explicit clear.
    pub closed spec fn app_map(self) -> Map<u64, Value<Seq<V>>> {
        app_map_of(self.props@)
    }

    /// Create a new, empty layer with a diagnostic name.
    pub fn new(name: &str) -> (r: Self)
        ensures
            r.spec_name() == name@,
            r.rep_map() == Map::<u64, Value<V>>::empty(),
            r.app_map() == Map::<u64, Value<Seq<V>>>::empty(),
    {
        Layer { name: name.to_owned(), props: Vec::new() }
    }

    /// Whether no type has any slot in this layer.
    pub fn empty(&self) -> (r: bool)
        ensures
            r <==> (self.rep_map() == Map::<u64, Value<V>>::empty() && self.app_map()
                == Map::<u64, Value<Seq<V>>>::empty()),
    {
        proof {
            use_type_invariant(&*self);
            if self.props@.len() > 0 {
                let s = self.props@;
                let i = s.len() - 1;
                match s[i].key {
                    StoreKey::Replace(id) => {
                        lemma_rep_present(s, id, i);
                        assert(rep_map_of(s).contains_key(id));
                    },
                    StoreKey::Append(id) => {
                        lemma_app_present(s, id, i);
                        assert(app_map_of(s).contains_key(id));
                    },
                }
            }
        }
        self.props.len() == 0
    }

    /// The index of the entry stored under `key`, if there is one.
    fn find(&self, key: StoreKey) -> (r: Option<usize>)
        ensures
            match r {
                Some(i) => i < self.props@.len() && self.props@[i as int].key == key,
                None => forall|j: int| 0 <= j < self.props@.len() ==> self.props@[j].key != key,
            },
    {
        let mut i: usize = 0;
        while i < self.props.len()
            invariant
                i <= self.props@.len(),
                forall|j: int| 0 <= j < i ==> self.props@[j].key != key,
            decreases self.props@.len() - i,
        {
            if self.props[i].key == key {
                return Some(i);
            }
            i = i + 1;
        }
        None
    }

    /// Stores `cell` under `key`, overwriting whatever slot the key had.
    fn put_directly(&mut self, key: StoreKey, cell: CellValue<V>)
        requires
            (key is Replace <==> cell is Replace),
        ensures
            final(self).spec_name() == old(self).spec_name(),
            cell matches CellValue::Replace(c) ==> (key matches StoreKey::Replace(id)
                ==> final(self).rep_map() == old(self).rep_map().insert(id, c)
                && final(self).app_map() == old(self).app_map()),
            cell matches CellValue::Append(c) ==> (key matches StoreKey::Append(id)
                ==> final(self).app_map() == old(self).app_map().insert(id, app_cell_view(c))
                && final(self).rep_map() == old(self).rep_map()),
    {
        proof {
            use_type_invariant(&*self);
        }
        let idx = self.find(key);
        let mut props: Vec<Entry<V>> = Vec::new();
        std::mem::swap(&mut props, &mut self.props);
        let ghost s0 = props@;
        match idx {
            Some(i) => {
                let slot = &mut props[i];
                *slot = Entry { key, cell };
                proof {
                    lemma_maps_update(s0, i as int, props@[i as int]);
                }
            },
            None => {
                props.push(Entry { key, cell });
                proof {
                    lemma_key_absent(s0, key);
                    lemma_maps_push(s0, props@.last());
                }
            },
        }
        self.props = props;
    }

    /// Contributes `value` for the replace-policy type of `key`, overwriting
    /// any slot this layer already had for it.
    pub fn put(&mut self, key: ReplaceKey, value: V)
        ensures
            final(self).spec_name() == old(self).spec_name(),
            final(self).rep_map() == old(self).rep_map().insert(key.id, Value::Stored(value)),
            final(self).app_map() == old(self).app_map(),
    {
        self.put_directly(StoreKey::Replace(key.id), CellValue::Replace(Value::Stored(value)));
    }

    /// Contributes `item` for the replace-policy type of `key`; identical to
    /// [`Layer::put`] and kept alongside it because producers that store
    /// declared types use this name.
    pub fn store_put(&mut self, key: ReplaceKey, item: V)
        ensures
            final(self).spec_name() == old(self).spec_name(),
            final(self).rep_map() == old(self).rep_map().insert(key.id, Value::Stored(item)),
            final(self).app_map() == old(self).app_map(),
    {
        self.put_directly(StoreKey::Replace(key.id), CellValue::Replace(Value::Stored(item)));
    }

    /// Marks the replace-policy type of `key` explicitly unset in this
    /// layer: a read finding this slot stops and returns nothing, without
    /// consulting older layers.
    pub fn unset(&mut self, key: ReplaceKey)
        ensures
            final(self).spec_name() == old(self).spec_name(),
            final(self).rep_map() == old(self).rep_map().insert(key.id, Value::ExplicitlyUnset),
            final(self).app_map() == old(self).app_map(),
    {
        self.put_directly(StoreKey::Replace(key.id), CellValue::Replace(Value::ExplicitlyUnset));
    }

    /// Contributes `item` when given `Some`, and marks the type explicitly
    /// unset when given `None`.
    pub fn store_or_unset(&mut self, key: ReplaceKey, item: Option<V>)
        ensures
            final(self).spec_name() == old(self).spec_name(),
            final(self).rep_map() == old(self).rep_map().insert(
                key.id,
                match item {
                    Some(v) => Value::Stored(v),
                    None => Value::ExplicitlyUnset,
                },
            ),
            final(self).app_map() == old(self).app_map(),
    {
        let cell = match item {
            Some(v) => CellValue::Replace(Value::Stored(v)),
            None => CellValue::Replace(Value::ExplicitlyUnset),
        };
        self.put_directly(StoreKey::Replace(key.id), cell);
    }

    /// Appends `item` to this layer's list for the append-policy type of
    /// `key`, creating the list if the type had no slot here. Appending onto
    /// an explicit clear replaces the clear with a one-item list.
    pub fn store_append(&mut self, key: AppendKey, item: V)
        ensures
            final(self).spec_name() == old(self).spec_name(),
            final(self).rep_map() == old(self).rep_map(),
            final(self).app_map() == old(self).app_map().insert(
                key.id,
                Value::Stored(stored_items_after_append(old(self).app_map(), key.id, item)),
            ),
    {
        proof {
            use_type_invariant(&*self);
        }
        let skey = StoreKey::Append(key.id);
        let idx = self.find(skey);
        let mut props: Vec<Entry<V>> = Vec::new();
        std::mem::swap(&mut props, &mut self.props);
        let ghost s0 = props@;
        match idx {
            Some(i) => {
                proof {
                    lemma_app_present(s0, key.id, i as int);
                }
                let slot = &mut props[i];
                match slot {
                    Entry { key: _, cell: CellValue::Append(Value::Stored(items)) } => {
                        items.push(item);
                    },
                    Entry { key: _, cell: CellValue::Append(Value::ExplicitlyUnset) } => {
                        let mut items: Vec<V> = Vec::new();
                        items.push(item);
                        *slot = Entry { key: skey, cell: CellValue::Append(Value::Stored(items)) };
                    },
                    Entry { key: _, cell: CellValue::Replace(_) } => {
                        proof {
                            assert(false);
                        }
                    },
                }
                proof {
                    lemma_maps_update(s0, i as int, props@[i as int]);
                }
            },
            None => {
                let mut items: Vec<V> = Vec::new();
                items.push(item);
                props.push(Entry { key: skey, cell: CellValue::Append(Value::Stored(items)) });
                proof {
                    lemma_key_absent(s0, skey);
                    lemma_maps_push(s0, props@.last());
                }
            },
        }
        self.props = props;
    }

    /// Clears the append-policy type of `key` in this layer: the layer's own
    /// appended items are discarded, and a read stops at this layer without
    /// consulting older ones.
    pub fn clear(&mut self, key: AppendKey)
        ensures
            final(self).spec_name() == old(self).spec_name(),
            final(self).rep_map() == old(self).rep_map(),
            final(self).app_map() == old(self).app_map().insert(key.id, Value::ExplicitlyUnset),
    {
        self.put_directly(StoreKey::Append(key.id), CellValue::Append(Value::ExplicitlyUnset));
    }

    /// The slot this layer holds for the replace-policy type of `id`, if
    /// any. The cell is necessarily of the replace shape: the key that
    /// stored it carried the same policy.
    pub(crate) fn probe_replace(&self, id: u64) -> (r: Option<&Value<V>>)
        ensures
            match r {
                Some(c) => self.rep_map().contains_key(id) && *c == self.rep_map()[id],
                None => !self.rep_map().contains_key(id),
            },
    {
        proof {
            use_type_invariant(&*self);
        }
        match self.find(StoreKey::Replace(id)) {
            Some(i) => {
                proof {
                    lemma_rep_present(self.props@, id, i as int);
                }
                match &self.props[i].cell {
                    CellValue::Replace(c) => Some(c),
                    CellValue::Append(_) => {
                        proof {
                            assert(false);
                        }
                        vstd::pervasive::unreached()
                    },
                }
            },
            None => {
                proof {
                    lemma_key_absent(self.props@, StoreKey::Replace(id));
                }
                None
            },
        }
    }

    /// The slot this layer holds for the append-policy type of `id`, if any.
    pub(crate) fn probe_append(&self, id: u64) -> (r: Option<&Value<Vec<V>>>)
        ensures
            match r {
                Some(c) => self.app_map().contains_key(id) && app_cell_view(*c)
                    == self.app_map()[id],
                None => !self.app_map().contains_key(id),
            },
    {
        proof {
            use_type_invariant(&*self);
        }
        match self.find(StoreKey::Append(id)) {
            Some(i) => {
                proof {
                    lemma_app_present(self.props@, id, i as int);
                }
                match &self.props[i].cell {
                    CellValue::Append(c) => Some(c),
                    CellValue::Replace(_) => {
                        proof {
                            assert(false);
                        }
                        vstd::pervasive::unreached()
                    },
                }
            },
            None => {
                proof {
                    lemma_key_absent(self.props@, StoreKey::Append(id));
                }
                None
            },
        }
    }

    /// The effective value for the replace-policy type of `key`, computed
    /// against this single layer: the contributed value if one was stored,
    /// and nothing if the type is absent or explicitly unset here.
    pub fn load(&self, key: ReplaceKey) -> (r: Option<&V>)
        ensures
            match r {
                Some(v) => self.rep_map().contains_key(key.id) && self.rep_map()[key.id]
                    == Value::Stored(*v),
                None => !self.rep_map().contains_key(key.id) || self.rep_map()[key.id]
                    is ExplicitlyUnset,
            },
    {
        match self.probe_replace(key.id) {
            Some(Value::Stored(v)) => Some(v),
            Some(Value::ExplicitlyUnset) => None,
            None => None,
        }
    }

    /// The effective items for the append-policy type of `key`, computed
    /// against this single layer: the layer's own appends, most recent
    /// first; nothing if the type is absent or cleared here.
    pub fn load_append(&self, key: AppendKey) -> (r: ItemIter<'_, V>)
        ensures
            r.remaining() == (if self.app_map().contains_key(key.id) && self.app_map()[key.id]
                is Stored {
                self.app_map()[key.id]->Stored_0.reverse()
            } else {
                Seq::<V>::empty()
            }),
    {
        let mut out: Vec<&V> = Vec::new();
        match self.probe_append(key.id) {
            Some(Value::Stored(items)) => {
                push_reversed(&mut out, items);
            },
            Some(Value::ExplicitlyUnset) => {},
            None => {},
        }
        ItemIter::from_items(out)
    }

    /// Freezes this layer into an immutable, shareable snapshot.
    pub fn freeze(self) -> (r: FrozenLayer<V>)
        ensures
            r.layer() == self,
    {
        FrozenLayer(Arc::new(self))
    }
}

/// Whether `b` could be a clone of the replace-policy slot state `a`:
/// the same shape, with a cloned contribution.
pub open spec fn value_cloned<V: Clone>(a: Value<V>, b: Value<V>) -> bool {
    match (a, b) {
        (Value::Stored(x), Value::Stored(y)) => cloned::<V>(x, y),
        (Value::ExplicitlyUnset, Value::ExplicitlyUnset) => true,
        _ => false,
    }
}

/// Whether `b` could be a clone of the append-policy slot state `a`: the
/// same shape, with the items cloned one for one in order.
pub open spec fn items_cloned<V: Clone>(a: Value<Seq<V>>, b: Value<Seq<V>>) -> bool {
    match (a, b) {
        (Value::Stored(x), Value::Stored(y)) => x.len() == y.len() && (forall|k: int|
            0 <= k < x.len() ==> cloned::<V>(x[k], #[trigger] y[k])),
        (Value::ExplicitlyUnset, Value::ExplicitlyUnset) => true,
        _ => false,
    }
}

/// Whether `b`'s cell could be a clone of `a`'s.
pub(crate) open spec fn cell_cloned<V: Clone>(a: CellValue<V>, b: CellValue<V>) -> bool {
    match (a, b) {
        (CellValue::Replace(x), CellValue::Replace(y)) => value_cloned(x, y),
        (CellValue::Append(x), CellValue::Append(y)) => items_cloned(
            app_cell_view(x),
            app_cell_view(y),
        ),
        _ => false,
    }
}

/// Entry sequences that agree on keys and hold cloned cells describe maps
/// over the same slots, slot state cloned for cloned.
proof fn lemma_maps_cloned<V: Clone>(a: Seq<Entry<V>>, b: Seq<Entry<V>>)
    requires
        a.len() == b.len(),
        forall|i: int| 0 <= i < a.len() ==> (#[trigger] b[i]).key == a[i].key,
        forall|i: int| 0 <= i < a.len() ==> cell_cloned(a[i].cell, (#[trigger] b[i]).cell),
    ensures
        rep_map_of(b).dom() == rep_map_of(a).dom(),
        forall|id: u64| #[trigger]
            rep_map_of(a).contains_key(id) ==> value_cloned(
                rep_map_of(a)[id],
                rep_map_of(b)[id],
            ),
        app_map_of(b).dom() == app_map_of(a).dom(),
        forall|id: u64| #[trigger]
            app_map_of(a).contains_key(id) ==> items_cloned(
                app_map_of(a)[id],
                app_map_of(b)[id],
            ),
    decreases a.len(),
{
    if a.len() > 0 {
        lemma_maps_cloned(a.drop_last(), b.drop_last());
        assert(cell_cloned(a.last().cell, b.last().cell));
        assert(rep_map_of(b).dom() =~= rep_map_of(a).dom());
        assert(app_map_of(b).dom() =~= app_map_of(a).dom());
    }
}

impl<V: Clone> Clone for Layer<V> {
    /// A layer with the same name and the same slots, each slot of the
    /// same state — contributed, explicitly unset or absent — and each
    /// contribution a clone of the original's.
    fn clone(&self) -> (r: Self)
        ensures
            r.spec_name() == self.spec_name(),
            r.rep_map().dom() == self.rep_map().dom(),
            forall|id: u64| #[trigger]
                self.rep_map().contains_key(id) ==> value_cloned(
                    self.rep_map()[id],
                    r.rep_map()[id],
                ),
            r.app_map().dom() == self.app_map().dom(),
            forall|id: u64| #[trigger]
                self.app_map().contains_key(id) ==> items_cloned(
                    self.app_map()[id],
                    r.app_map()[id],
                ),
    {
        proof {
            use_type_invariant(&*self);
        }
        let mut props: Vec<Entry<V>> = Vec::new();
        let mut i: usize = 0;
        while i < self.props.len()
            invariant
                i <= self.props@.len(),
                props@.len() == i,
                forall|j: int| 0 <= j < i ==> props@[j].key == self.props@[j].key,
                forall|j: int|
                    0 <= j < i ==> ((#[trigger] props@[j].cell) is Replace
                        <==> self.props@[j].cell is Replace),
                forall|j: int|
                    0 <= j < i ==> cell_cloned(self.props@[j].cell, (#[trigger] props@[j]).cell),
                keys_distinct(self.props@),
                shapes_match(self.props@),
            decreases self.props@.len() - i,
        {
            let e = &self.props[i];
            let cell = match &e.cell {
                CellValue::Replace(Value::Stored(v)) => CellValue::Replace(
                    Value::Stored(v.clone()),
                ),
                CellValue::Replace(Value::ExplicitlyUnset) => CellValue::Replace(
                    Value::ExplicitlyUnset,
                ),
                CellValue::Append(Value::Stored(items)) => CellValue::Append(
                    Value::Stored(items.clone()),
                ),
                CellValue::Append(Value::ExplicitlyUnset) => CellValue::Append(
                    Value::ExplicitlyUnset,
                ),
            };
            proof {
                assert(cell_cloned(self.props@[i as int].cell, cell));
            }
            props.push(Entry { key: e.key, cell });
            i = i + 1;
        }
        proof {
            lemma_maps_cloned(self.props@, props@);
        }
        Layer { name: self.name.clone(), props }
    }
}

/// Relies on `std::sync::Arc::try_unwrap`: it returns the inner value when
/// the given handle is the only strong reference to it, and otherwise gives
/// the same handle back untouched.
#[verifier::external_body]
fn arc_try_unwrap<T>(v: Arc<T>) -> (r: Result<T, Arc<T>>)
    ensures
        match r {
            Ok(t) => t == v,
            Err(e) => e == v,
        },
{
    Arc::try_unwrap(v)
}

/// Relies on `std::sync::Arc::clone`: it returns a new handle to the same
/// allocation, so the value seen through both handles is the same.
#[verifier::external_body]
fn arc_clone<T>(v: &Arc<T>) -> (r: Arc<T>)
    ensures
        r == *v,
{
    Arc::clone(v)
}

/// An immutable, shareable snapshot of a [`Layer`].
///
/// Many bags — or several positions within one bag's history — may hold the
/// same frozen layer without copying its contents. The wrapped layer is
/// reference-counted and lives until the last holder is dropped.
#[derive(Debug)]
pub struct FrozenLayer<V>(Arc<Layer<V>>);

impl<V> FrozenLayer<V> {
    /// The layer this snapshot wraps.
    pub closed spec fn layer(self) -> Layer<V> {
        *self.0
    }

    /// Read-only access to the wrapped layer.
    pub fn layer_ref(&self) -> (r: &Layer<V>)
        ensures
            *r == self.layer(),
    {
        &*self.0
    }

    /// Recovers the mutable layer when this handle is the sole owner of it —
    /// the copy-on-write fast path. Returns `None` while the layer is still
    /// shared, forcing the caller to clone contents or allocate a fresh
    /// layer instead of mutating shared state.
    ///
    /// Whether the call succeeds is decided by the ownership count at run
    /// time: it succeeds exactly when no other holder exists. What is
    /// promised here is that a successful reclaim hands back precisely the
    /// wrapped layer, nothing copied and nothing altered.
    pub fn try_modify(self) -> (r: Option<Layer<V>>)
        ensures
            r matches Some(l) ==> l == self.layer(),
    {
        match arc_try_unwrap(self.0) {
            Ok(layer) => Some(layer),
            Err(_) => None,
        }
    }
}

impl<V> Clone for FrozenLayer<V> {
    /// Another handle to the same layer; nothing is copied.
    fn clone(&self) -> (r: Self)
        ensures
            r.layer() == self.layer(),
    {
        FrozenLayer(arc_clone(&self.0))
    }
}

/// The list a layer holds for an append-policy type after one more item is
/// appended: the item goes at the end of the existing list, and a missing or
/// explicitly cleared slot starts a fresh one-item list.
pub open spec fn stored_items_after_append<V>(
    m: Map<u64, Value<Seq<V>>>,
    id: u64,
    item: V,
) -> Seq<V> {
    if m.contains_key(id) && m[id] is Stored {
        m[id]->Stored_0.push(item)
    } else {
        seq![item]
    }
}

} // verus!
