//! The laws the merge semantics obey, each proved over the spec functions
//! that the read operations' contracts are stated against.

use vstd::prelude::*;

use crate::bag::{append_lookup, replace_lookup, ConfigBag};
use crate::layer::Layer;
use crate::store::Value;

verus! {

/// For any stack of layers read newest first, the effective replace-policy
/// value for a type comes from the newest layer that set *or unset* it: a
/// contribution there is returned, and an explicit unset there hides every
/// older layer's contribution — the read never falls through it.
pub proof fn lemma_replace_newest_wins<V>(layers: Seq<Layer<V>>, id: u64, i: int)
    requires
        0 <= i < layers.len(),
        layers[i].rep_map().contains_key(id),
        forall|j: int| 0 <= j < i ==> !(#[trigger] layers[j].rep_map()).contains_key(id),
    ensures
        replace_lookup(layers, id) == (match layers[i].rep_map()[id] {
            Value::Stored(v) => Some(v),
            Value::ExplicitlyUnset => None,
        }),
    decreases i,
{
    if i > 0 {
        let rest = layers.drop_first();
        assert forall|j: int| 0 <= j < i - 1 implies !(#[trigger] rest[j].rep_map()).contains_key(
            id,
        ) by {
            assert(rest[j] == layers[j + 1]);
        }
        lemma_replace_newest_wins(rest, id, i - 1);
    }
}

/// Where the first layer that explicitly cleared an append-policy type
/// sits in a newest-first stack; the stack's length if none did.
pub open spec fn truncation_point<V>(layers: Seq<Layer<V>>, id: u64) -> int
    decreases layers.len(),
{
    if layers.len() == 0 {
        0
    } else if layers[0].app_map().contains_key(id) && layers[0].app_map()[id]
        is ExplicitlyUnset {
        0
    } else {
        1 + truncation_point(layers.drop_first(), id)
    }
}

/// One layer's own contribution to an append-policy read: its items, most
/// recently appended first; nothing if the type is absent or cleared here.
pub open spec fn layer_contribution<V>(l: Layer<V>, id: u64) -> Seq<V> {
    if l.app_map().contains_key(id) && l.app_map()[id] is Stored {
        l.app_map()[id]->Stored_0.reverse()
    } else {
        Seq::empty()
    }
}

/// Append-policy reads yield items in strict most-recent-first order, both
/// across layers and within one layer's own appends: the result is exactly
/// the concatenation, newest layer first, of each layer's contribution,
/// taken over the layers strictly newer than the first explicit clear.
/// The clearing layer's own discarded items and every older layer are
/// hidden; layers newer than the clear still contribute.
pub proof fn lemma_append_newest_first<V>(layers: Seq<Layer<V>>, id: u64)
    ensures
        0 <= truncation_point(layers, id) <= layers.len(),
        append_lookup(layers, id) == Seq::new(
            truncation_point(layers, id) as nat,
            |j: int| layer_contribution(layers[j], id),
        ).flatten(),
    decreases layers.len(),
{
    let cut = truncation_point(layers, id);
    let parts = Seq::new(cut as nat, |j: int| layer_contribution(layers[j], id));
    if layers.len() == 0 {
        assert(parts.len() == 0);
        assert(parts.flatten() =~= Seq::<V>::empty());
    } else if layers[0].app_map().contains_key(id) && layers[0].app_map()[id]
        is ExplicitlyUnset {
        assert(parts.len() == 0);
        assert(parts.flatten() =~= Seq::<V>::empty());
    } else {
        let rest = layers.drop_first();
        lemma_append_newest_first(rest, id);
        let rest_parts = Seq::new(
            truncation_point(rest, id) as nat,
            |j: int| layer_contribution(rest[j], id),
        );
        assert(parts.drop_first() =~= rest_parts);
        assert(parts.flatten() == parts.first() + parts.drop_first().flatten());
        assert(parts.first() == layer_contribution(layers[0], id));
        if layers[0].app_map().contains_key(id) {
            assert(append_lookup(layers, id) == layers[0].app_map()[id]->Stored_0.reverse()
                + append_lookup(rest, id));
        } else {
            assert(layer_contribution(layers[0], id) == Seq::<V>::empty());
            assert(parts.flatten() =~= append_lookup(rest, id));
        }
    }
}

/// Reads depend only on the layers' abstract slots: two stacks that agree,
/// layer for layer, on the slots for a type read the same, whatever
/// handles, names or storage order the layers carry. In particular, two
/// bags holding the *same* shared frozen layer at corresponding positions
/// read identical results from it, and a write into one bag's exclusively
/// owned current layer leaves every other bag's stack — and therefore its
/// reads — untouched.
pub proof fn lemma_reads_depend_only_on_slots<V>(a: Seq<Layer<V>>, b: Seq<Layer<V>>, id: u64)
    requires
        a.len() == b.len(),
        forall|j: int| 0 <= j < a.len() ==> (#[trigger] a[j].rep_map()) == b[j].rep_map(),
        forall|j: int| 0 <= j < a.len() ==> (#[trigger] a[j].app_map()) == b[j].app_map(),
    ensures
        replace_lookup(a, id) == replace_lookup(b, id),
        append_lookup(a, id) == append_lookup(b, id),
    decreases a.len(),
{
    if a.len() > 0 {
        let ra = a.drop_first();
        let rb = b.drop_first();
        assert forall|j: int| 0 <= j < ra.len() implies (#[trigger] ra[j].rep_map())
            == rb[j].rep_map() && ra[j].app_map() == rb[j].app_map() by {
            assert(ra[j] == a[j + 1]);
            assert(rb[j] == b[j + 1]);
        }
        lemma_reads_depend_only_on_slots(ra, rb, id);
        assert(a[0].rep_map() == b[0].rep_map());
        assert(a[0].app_map() == b[0].app_map());
    }
}

/// Repeated reads of the same bag without intervening writes return equal
/// results: a read's outcome is a function of the bag's layers alone, as
/// each read's contract pins it to the same lookup.
pub proof fn lemma_repeated_reads_equal<V>(
    b: ConfigBag<V>,
    id: u64,
    r1: Option<V>,
    r2: Option<V>,
    s1: Seq<V>,
    s2: Seq<V>,
)
    requires
        r1 == replace_lookup(b.layers(), id),
        r2 == replace_lookup(b.layers(), id),
        s1 == append_lookup(b.layers(), id),
        s2 == append_lookup(b.layers(), id),
    ensures
        r1 == r2,
        s1 == s2,
{
}

} // verus!
