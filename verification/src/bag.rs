use vstd::prelude::*;

use crate::items::{deref_items, push_reversed, ItemIter};
use crate::layer::{FrozenLayer, Layer};
use crate::store::{AppendKey, ReplaceKey, Value};

verus! {

/// The effective replace-policy value for the type of `id`, over `layers`
/// ordered newest first: the value from the first layer that has any slot
/// for the type. An explicit unset in that layer yields nothing and does
/// not fall through to older layers.
pub open spec fn replace_lookup<V>(layers: Seq<Layer<V>>, id: u64) -> Option<V>
    decreases layers.len(),
{
    if layers.len() == 0 {
        None
    } else if layers[0].rep_map().contains_key(id) {
        match layers[0].rep_map()[id] {
            Value::Stored(v) => Some(v),
            Value::ExplicitlyUnset => None,
        }
    } else {
        replace_lookup(layers.drop_first(), id)
    }
}

/// The effective append-policy items for the type of `id`, over `layers`
/// ordered newest first: each layer contributes its own items most recently
/// appended first, and a layer with an explicit clear truncates the walk —
/// older layers are not visited.
pub open spec fn append_lookup<V>(layers: Seq<Layer<V>>, id: u64) -> Seq<V>
    decreases layers.len(),
{
    if layers.len() == 0 {
        Seq::empty()
    } else if layers[0].app_map().contains_key(id) {
        match layers[0].app_map()[id] {
            Value::Stored(items) => items.reverse() + append_lookup(layers.drop_first(), id),
            Value::ExplicitlyUnset => Seq::empty(),
        }
    } else {
        append_lookup(layers.drop_first(), id)
    }
}

/// An ordered stack of layers: one mutable current layer on top of a
/// history of frozen layers, with merge-on-read semantics.
///
/// The bag exclusively owns its current layer and shares its frozen ones.
/// The effective read order is the current layer first, then the frozen
/// history from most recently pushed to oldest; [`ConfigBag::layers`] is
/// that order, and every read is proved against [`replace_lookup`] and
/// [`append_lookup`] over it.
#[derive(Debug)]
pub struct ConfigBag<V> {
    interceptor_state: Layer<V>,
    tail: Vec<FrozenLayer<V>>,
}

impl<V> ConfigBag<V> {
    /// The mutable top layer.
    pub closed spec fn current_layer(self) -> Layer<V> {
        self.interceptor_state
    }

    /// The frozen history, oldest first.
    pub closed spec fn frozen_layers(self) -> Seq<Layer<V>> {
        self.tail@.map(|i: int, f: FrozenLayer<V>| f.layer())
    }

    /// Every layer of the bag in effective read order: the current layer,
    /// then the frozen history from most recently pushed to oldest.
    pub open spec fn layers(self) -> Seq<Layer<V>> {
        seq![self.current_layer()] + self.frozen_layers().reverse()
    }

    /// A new bag: one empty current layer and no history.
    pub fn base() -> (r: ConfigBag<V>)
        ensures
            r.current_layer().spec_name() == "interceptor_state"@,
            r.current_layer().rep_map() == Map::<u64, Value<V>>::empty(),
            r.current_layer().app_map() == Map::<u64, Value<Seq<V>>>::empty(),
            r.frozen_layers() == Seq::<Layer<V>>::empty(),
    {
        let r = ConfigBag { interceptor_state: Layer::new("interceptor_state"), tail: Vec::new() };
        proof {
            assert(r.frozen_layers() =~= Seq::<Layer<V>>::empty());
        }
        r
    }

    /// A new bag whose history is exactly `layers`, frozen in order: the
    /// first element becomes the oldest layer.
    pub fn of_layers(layers: Vec<Layer<V>>) -> (r: ConfigBag<V>)
        ensures
            r.current_layer().spec_name() == "interceptor_state"@,
            r.current_layer().rep_map() == Map::<u64, Value<V>>::empty(),
            r.current_layer().app_map() == Map::<u64, Value<Seq<V>>>::empty(),
            r.frozen_layers() == layers@,
    {
        let mut bag = ConfigBag::base();
        let mut rest = layers;
        let ghost all = rest@;
        while rest.len() > 0
            invariant
                bag.current_layer().spec_name() == "interceptor_state"@,
                bag.current_layer().rep_map() == Map::<u64, Value<V>>::empty(),
                bag.current_layer().app_map() == Map::<u64, Value<Seq<V>>>::empty(),
                all == bag.frozen_layers() + rest@,
            decreases rest@.len(),
        {
            let l = rest.remove(0);
            bag.push_layer(l);
            proof {
                assert(bag.frozen_layers() + rest@ =~= all);
            }
        }
        proof {
            assert(bag.frozen_layers() =~= all);
        }
        bag
    }

    /// Freezes `layer` and appends it to the history, directly beneath the
    /// current layer.
    pub fn push_layer(&mut self, layer: Layer<V>) -> (r: &mut Self)
        ensures
            r.current_layer() == old(self).current_layer(),
            r.frozen_layers() == old(self).frozen_layers().push(layer),
            *final(self) == *final(r),
    {
        let frozen = layer.freeze();
        proof {
            assert(self.tail@.push(frozen).map(|i: int, f: FrozenLayer<V>| f.layer())
                =~= self.tail@.map(|i: int, f: FrozenLayer<V>| f.layer()).push(frozen.layer()));
        }
        self.tail.push(frozen);
        self
    }

    /// Appends an already-frozen layer to the history without touching the
    /// current layer, so one frozen layer can be reused across many bags.
    pub fn push_shared_layer(&mut self, layer: FrozenLayer<V>) -> (r: &mut Self)
        ensures
            r.current_layer() == old(self).current_layer(),
            r.frozen_layers() == old(self).frozen_layers().push(layer.layer()),
            *final(self) == *final(r),
    {
        proof {
            assert(self.tail@.push(layer).map(|i: int, f: FrozenLayer<V>| f.layer())
                =~= self.tail@.map(|i: int, f: FrozenLayer<V>| f.layer()).push(layer.layer()));
        }
        self.tail.push(layer);
        self
    }

    /// Exclusive mutable access to the current layer, for direct
    /// request-scoped writes.
    pub fn interceptor_state(&mut self) -> (r: &mut Layer<V>)
        ensures
            *r == old(self).current_layer(),
            final(self).current_layer() == *final(r),
            final(self).frozen_layers() == old(self).frozen_layers(),
    {
        &mut self.interceptor_state
    }

    /// How many layers the bag holds, the current layer included.
    pub fn num_layers(&self) -> (n: usize)
        requires
            self.frozen_layers().len() < usize::MAX,
        ensures
            n == self.layers().len(),
    {
        self.tail.len() + 1
    }

    /// The effective value for the replace-policy type of `key`: the merge
    /// algorithm over the current layer and the history, newest first.
    pub fn sourced_get(&self, key: ReplaceKey) -> (r: Option<&V>)
        ensures
            match r {
                Some(v) => replace_lookup(self.layers(), key.id) == Some(*v),
                None => replace_lookup(self.layers(), key.id) is None,
            },
    {
        let ghost ls = self.layers();
        proof {
            assert(ls[0] == self.current_layer());
            assert(ls.drop_first() =~= self.frozen_layers().reverse());
        }
        match self.interceptor_state.probe_replace(key.id) {
            Some(c) => {
                return match c {
                    Value::Stored(v) => Some(v),
                    Value::ExplicitlyUnset => None,
                };
            },
            None => {},
        }
        let n = self.tail.len();
        let mut k: usize = n;
        while k > 0
            invariant
                n == self.tail@.len(),
                k <= n,
                ls == self.layers(),
                ls.len() == n + 1,
                replace_lookup(ls, key.id) == replace_lookup(ls.skip(n - k + 1), key.id),
            decreases k,
        {
            let ghost m = n - k + 1;
            proof {
                assert(ls.skip(m)[0] == ls[m]);
                assert(ls[m] == self.frozen_layers().reverse()[m - 1]);
                assert(self.frozen_layers().reverse()[m - 1] == self.frozen_layers()[n - m]);
                assert(self.frozen_layers()[k - 1] == self.tail@[k - 1].layer());
            }
            let fl = &self.tail[k - 1];
            let lr = fl.layer_ref();
            match lr.probe_replace(key.id) {
                Some(c) => {
                    proof {
                        assert(ls.skip(m)[0] == *lr);
                    }
                    return match c {
                        Value::Stored(v) => Some(v),
                        Value::ExplicitlyUnset => None,
                    };
                },
                None => {
                    proof {
                        assert(ls.skip(m).drop_first() =~= ls.skip(m + 1));
                    }
                },
            }
            k = k - 1;
        }
        proof {
            assert(ls.skip(n + 1).len() == 0);
        }
        None
    }

    /// The effective value for the replace-policy type of `key`.
    pub fn get(&self, key: ReplaceKey) -> (r: Option<&V>)
        ensures
            match r {
                Some(v) => replace_lookup(self.layers(), key.id) == Some(*v),
                None => replace_lookup(self.layers(), key.id) is None,
            },
    {
        self.sourced_get(key)
    }

    /// The effective value for the replace-policy type of `key`; the name
    /// consumers of declared types use.
    pub fn load(&self, key: ReplaceKey) -> (r: Option<&V>)
        ensures
            match r {
                Some(v) => replace_lookup(self.layers(), key.id) == Some(*v),
                None => replace_lookup(self.layers(), key.id) is None,
            },
    {
        self.sourced_get(key)
    }

    /// The effective items for the append-policy type of `key`: every
    /// layer's contributions newest first, truncated at the first layer
    /// that explicitly cleared the type.
    pub fn load_append(&self, key: AppendKey) -> (r: ItemIter<'_, V>)
        ensures
            r.remaining() == append_lookup(self.layers(), key.id),
    {
        let ghost ls = self.layers();
        proof {
            assert(ls[0] == self.current_layer());
            assert(ls.drop_first() =~= self.frozen_layers().reverse());
        }
        let mut out: Vec<&V> = Vec::new();
        let mut stopped = false;
        match self.interceptor_state.probe_append(key.id) {
            Some(Value::Stored(items)) => {
                push_reversed(&mut out, items);
            },
            Some(Value::ExplicitlyUnset) => {
                stopped = true;
            },
            None => {},
        }
        let n = self.tail.len();
        let mut k: usize = n;
        while k > 0 && !stopped
            invariant
                n == self.tail@.len(),
                k <= n,
                ls == self.layers(),
                ls.len() == n + 1,
                !stopped ==> append_lookup(ls, key.id) == deref_items(out@) + append_lookup(
                    ls.skip(n - k + 1),
                    key.id,
                ),
                stopped ==> append_lookup(ls, key.id) == deref_items(out@),
            decreases k,
        {
            let ghost m = n - k + 1;
            proof {
                assert(ls.skip(m)[0] == ls[m]);
                assert(ls[m] == self.frozen_layers().reverse()[m - 1]);
                assert(self.frozen_layers().reverse()[m - 1] == self.frozen_layers()[n - m]);
                assert(self.frozen_layers()[k - 1] == self.tail@[k - 1].layer());
            }
            let fl = &self.tail[k - 1];
            let lr = fl.layer_ref();
            match lr.probe_append(key.id) {
                Some(Value::Stored(items)) => {
                    proof {
                        assert(ls.skip(m)[0] == *lr);
                        assert(ls.skip(m).drop_first() =~= ls.skip(m + 1));
                    }
                    push_reversed(&mut out, items);
                },
                Some(Value::ExplicitlyUnset) => {
                    proof {
                        assert(ls.skip(m)[0] == *lr);
                    }
                    stopped = true;
                },
                None => {
                    proof {
                        assert(ls.skip(m).drop_first() =~= ls.skip(m + 1));
                    }
                },
            }
            k = k - 1;
        }
        proof {
            if !stopped {
                assert(ls.skip(n + 1).len() == 0);
            }
        }
        ItemIter::from_items(out)
    }

    /// Derives a new bag from this one: the current layer is frozen and
    /// appended to the history, and `next` configures the fresh layer named
    /// `name` that becomes the new current layer. The old bag's layers are
    /// shared, not copied, so bags previously derived from them are
    /// unaffected.
    pub fn with_fn<F: FnOnce(Layer<V>) -> Layer<V>>(self, name: &str, next: F) -> (r:
        ConfigBag<V>)
        requires
            forall|l: Layer<V>|
                (l.spec_name() == name@ && l.rep_map() == Map::<u64, Value<V>>::empty()
                    && l.app_map() == Map::<u64, Value<Seq<V>>>::empty()) ==> call_requires(
                    next,
                    (l,),
                ),
        ensures
            r.frozen_layers() == self.frozen_layers().push(self.current_layer()),
            exists|fresh: Layer<V>|
                fresh.spec_name() == name@ && fresh.rep_map() == Map::<u64, Value<V>>::empty()
                    && fresh.app_map() == Map::<u64, Value<Seq<V>>>::empty() && #[trigger]
                call_ensures(next, (fresh,), r.current_layer()),
    {
        let fresh = Layer::new(name);
        let ghost fresh0 = fresh;
        let configured = next(fresh);
        let ConfigBag { interceptor_state: head, tail } = self;
        let ghost old_tail = tail@;
        let mut tail = tail;
        let frozen = head.freeze();
        proof {
            assert(old_tail.push(frozen).map(|i: int, f: FrozenLayer<V>| f.layer())
                =~= old_tail.map(|i: int, f: FrozenLayer<V>| f.layer()).push(frozen.layer()));
        }
        tail.push(frozen);
        let r = ConfigBag { interceptor_state: configured, tail };
        proof {
            assert(fresh0.spec_name() == name@ && fresh0.rep_map() == Map::<u64, Value<V>>::empty()
                && fresh0.app_map() == Map::<u64, Value<Seq<V>>>::empty() && call_ensures(
                next,
                (fresh0,),
                r.current_layer(),
            ));
        }
        r
    }

    /// Derives a new bag with a fresh, empty current layer named `name`,
    /// freezing the current layer into the history.
    pub fn add_layer(self, name: &str) -> (r: ConfigBag<V>)
        ensures
            r.frozen_layers() == self.frozen_layers().push(self.current_layer()),
            r.current_layer().spec_name() == name@,
            r.current_layer().rep_map() == Map::<u64, Value<V>>::empty(),
            r.current_layer().app_map() == Map::<u64, Value<Seq<V>>>::empty(),
    {
        let keep = (|l: Layer<V>| -> (res: Layer<V>)
            ensures
                res == l,
            { l });
        self.with_fn(name, keep)
    }
}

} // verus!
