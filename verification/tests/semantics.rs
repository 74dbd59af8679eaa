use config_bag::{AppendKey, ConfigBag, Layer, ReplaceKey};

#[test]
fn replace_scenario_unset_hides_older_set() {
    let region = ReplaceKey::new(1);

    // Layer A sets the region; layer B, pushed after A, sets nothing.
    let mut layer_a: Layer<String> = Layer::new("A");
    layer_a.put(region, "us-east-1".to_owned());
    let layer_b: Layer<String> = Layer::new("B");

    let bag = ConfigBag::of_layers(vec![layer_a, layer_b]);
    assert_eq!(bag.load(region).map(|s| s.as_str()), Some("us-east-1"));

    // Layer C, pushed after B, explicitly unsets the region: the read now
    // returns nothing instead of falling through to layer A.
    let mut layer_c: Layer<String> = Layer::new("C");
    layer_c.unset(region);
    let mut bag = bag;
    bag.push_layer(layer_c);
    assert_eq!(bag.load(region), None);
}

#[test]
fn append_scenario_most_recent_first() {
    let tag = AppendKey::new(2);

    let mut layer_a: Layer<String> = Layer::new("A");
    layer_a.store_append(tag, "x".to_owned());
    layer_a.store_append(tag, "y".to_owned());
    let mut layer_b: Layer<String> = Layer::new("B");
    layer_b.store_append(tag, "z".to_owned());

    let bag = ConfigBag::of_layers(vec![layer_a, layer_b]);
    let collected: Vec<String> = bag
        .load_append(tag)
        .into_vec()
        .into_iter()
        .cloned()
        .collect();
    assert_eq!(collected, vec!["z".to_owned(), "y".to_owned(), "x".to_owned()]);
}

#[test]
fn clear_hides_older_layers_but_not_newer() {
    let tag = AppendKey::new(2);

    let mut oldest: Layer<u32> = Layer::new("oldest");
    oldest.store_append(tag, 1);
    let mut clearing: Layer<u32> = Layer::new("clearing");
    clearing.store_append(tag, 2);
    clearing.clear(tag);
    let mut newest: Layer<u32> = Layer::new("newest");
    newest.store_append(tag, 3);

    let bag = ConfigBag::of_layers(vec![oldest, clearing, newest]);
    let collected: Vec<u32> = bag
        .load_append(tag)
        .into_vec()
        .into_iter()
        .cloned()
        .collect();
    // The clearing layer discarded its own item and hides the oldest
    // layer's item, while the newer layer still contributes.
    assert_eq!(collected, vec![3]);
}

#[test]
fn sharing_one_frozen_layer_across_bags() {
    let endpoint = ReplaceKey::new(3);
    let other = ReplaceKey::new(4);

    let mut shared: Layer<&'static str> = Layer::new("client defaults");
    shared.put(endpoint, "https://example.com");
    let shared = shared.freeze();

    let mut bag_1 = ConfigBag::base();
    let mut bag_2 = ConfigBag::base();
    bag_1.push_shared_layer(shared.clone());
    bag_2.push_shared_layer(shared);

    // The same frozen layer reads identically from both bags.
    assert_eq!(bag_1.load(endpoint), bag_2.load(endpoint));
    assert_eq!(bag_1.load(endpoint), Some(&"https://example.com"));

    // Mutating one bag's exclusively owned current layer never affects the
    // other bag's reads.
    bag_1.interceptor_state().put(endpoint, "https://other.example.com");
    bag_1.interceptor_state().put(other, "unrelated");
    assert_eq!(bag_1.load(endpoint), Some(&"https://other.example.com"));
    assert_eq!(bag_2.load(endpoint), Some(&"https://example.com"));
    assert_eq!(bag_2.load(other), None);
}

#[test]
fn reclaim_succeeds_only_for_sole_owner() {
    let key = ReplaceKey::new(5);

    let mut layer: Layer<u32> = Layer::new("reclaim me");
    layer.put(key, 1);
    let frozen = layer.freeze();
    let second_handle = frozen.clone();

    // Two owners exist, so reclaiming through one of them fails.
    assert!(frozen.try_modify().is_none());

    // The failed attempt consumed one handle; the survivor is now the sole
    // owner, so reclaiming succeeds and hands back the layer unchanged.
    let mut reclaimed = second_handle.try_modify().unwrap();
    assert_eq!(reclaimed.load(key), Some(&1));

    // After mutating, re-freezing and reading back reflects the mutation.
    reclaimed.put(key, 2);
    let refrozen = reclaimed.freeze();
    assert_eq!(refrozen.layer_ref().load(key), Some(&2));
    let mut bag = ConfigBag::base();
    bag.push_shared_layer(refrozen);
    assert_eq!(bag.load(key), Some(&2));
}

#[test]
fn repeated_reads_return_equal_results() {
    let key = ReplaceKey::new(6);
    let tag = AppendKey::new(7);

    let mut layer: Layer<String> = Layer::new("stable");
    layer.put(key, "fixed".to_owned());
    layer.store_append(tag, "a".to_owned());
    layer.store_append(tag, "b".to_owned());
    let bag = ConfigBag::of_layers(vec![layer]);

    assert_eq!(bag.load(key), bag.load(key));
    let first: Vec<String> = bag.load_append(tag).into_vec().into_iter().cloned().collect();
    let second: Vec<String> = bag.load_append(tag).into_vec().into_iter().cloned().collect();
    assert_eq!(first, second);
    assert_eq!(first, vec!["b".to_owned(), "a".to_owned()]);
}

#[test]
fn store_or_unset_takes_both_paths() {
    let key = ReplaceKey::new(8);

    let mut older: Layer<u32> = Layer::new("older");
    older.put(key, 10);
    let mut newer: Layer<u32> = Layer::new("newer");
    newer.store_or_unset(key, Some(11));
    let bag = ConfigBag::of_layers(vec![older.clone(), newer]);
    assert_eq!(bag.load(key), Some(&11));

    let mut newer: Layer<u32> = Layer::new("newer");
    newer.store_or_unset(key, None);
    let bag = ConfigBag::of_layers(vec![older, newer]);
    assert_eq!(bag.load(key), None);
}

#[test]
fn layer_reports_emptiness_and_single_layer_loads() {
    let key = ReplaceKey::new(9);
    let tag = AppendKey::new(9);

    let mut layer: Layer<u32> = Layer::new("local");
    assert!(layer.empty());

    // A replace key and an append key with the same identity name two
    // unrelated slots.
    layer.put(key, 5);
    assert!(!layer.empty());
    assert_eq!(layer.load(key), Some(&5));
    assert_eq!(layer.load_append(tag).count(), 0);

    layer.store_append(tag, 6);
    assert_eq!(layer.load(key), Some(&5));
    let items: Vec<u32> = layer
        .load_append(tag)
        .into_vec()
        .into_iter()
        .cloned()
        .collect();
    assert_eq!(items, vec![6]);

    // An unset slot is distinct from an absent one: the layer is not empty
    // and the read yields nothing.
    let mut unset_layer: Layer<u32> = Layer::new("unset only");
    unset_layer.unset(key);
    assert!(!unset_layer.empty());
    assert_eq!(unset_layer.load(key), None);
}

#[test]
fn item_iter_yields_in_order() {
    let tag = AppendKey::new(12);
    let mut layer: Layer<u32> = Layer::new("iter");
    layer.store_append(tag, 1);
    layer.store_append(tag, 2);
    layer.store_append(tag, 3);

    let mut iter = layer.load_append(tag);
    assert_eq!(iter.count(), 3);
    assert_eq!(iter.next(), Some(&3));
    assert_eq!(iter.next(), Some(&2));
    assert_eq!(iter.count(), 1);
    assert_eq!(iter.next(), Some(&1));
    assert_eq!(iter.next(), None);
    assert_eq!(iter.count(), 0);
}

#[test]
fn append_after_clear_starts_fresh_in_that_layer() {
    let tag = AppendKey::new(13);

    let mut older: Layer<u32> = Layer::new("older");
    older.store_append(tag, 1);
    let mut newer: Layer<u32> = Layer::new("newer");
    newer.clear(tag);
    newer.store_append(tag, 2);

    // Appending after a clear replaces the clear marker in that layer, so
    // older layers are visible again.
    let bag = ConfigBag::of_layers(vec![older, newer]);
    let collected: Vec<u32> = bag
        .load_append(tag)
        .into_vec()
        .into_iter()
        .cloned()
        .collect();
    assert_eq!(collected, vec![2, 1]);
}

#[test]
fn add_layer_keeps_reads_and_protects_base() {
    let key = ReplaceKey::new(14);

    let mut bag = ConfigBag::base();
    bag.interceptor_state().put(key, 1u32);
    let derived = bag.add_layer("attempt");
    assert_eq!(derived.load(key), Some(&1));
    assert_eq!(derived.num_layers(), 2);

    // The derived bag's new current layer can override without touching
    // the frozen history.
    let mut derived = derived;
    derived.interceptor_state().put(key, 2);
    assert_eq!(derived.load(key), Some(&2));
}
