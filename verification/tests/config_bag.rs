use config_bag::{AppendKey, ConfigBag, Layer, ReplaceKey};

#[derive(Clone, Debug, PartialEq)]
enum Prop {
    One,
    Two,
    Three,
    Four,
}

#[test]
fn layered_property_bag() {
    let prop1 = ReplaceKey::new(1);
    let prop2 = ReplaceKey::new(2);
    let prop3 = ReplaceKey::new(3);
    let prop4 = ReplaceKey::new(4);

    let layer_a = move |mut bag: Layer<Prop>| {
        bag.put(prop1, Prop::One);
        bag
    };
    let layer_b = move |mut bag: Layer<Prop>| {
        bag.put(prop2, Prop::Two);
        bag
    };

    let mut base_bag = ConfigBag::base().with_fn("a", layer_a).with_fn("b", layer_b);
    base_bag.interceptor_state().put(prop3, Prop::Three);
    assert!(base_bag.get(prop1).is_some());

    let layer_c = move |mut bag: Layer<Prop>| {
        bag.put(prop4, Prop::Four);
        bag.unset(prop3);
        bag
    };

    let final_bag = base_bag.with_fn("c", layer_c);

    assert!(final_bag.get(prop4).is_some());
    assert!(final_bag.get(prop1).is_some());
    assert!(final_bag.get(prop2).is_some());
    // we unset prop3
    assert!(final_bag.get(prop3).is_none());
    println!("{:#?}", final_bag);
}

#[test]
fn config_bag() {
    let region = ReplaceKey::new(1);
    let signing_name = ReplaceKey::new(2);
    let custom = ReplaceKey::new(3);

    let bag: ConfigBag<&'static str> = ConfigBag::base();
    let bag = bag.with_fn("service config", move |mut layer: Layer<&'static str>| {
        layer.put(region, "asdf");
        layer
    });

    assert_eq!(*bag.get(region).unwrap(), "asdf");

    let operation_config = bag.with_fn("operation", move |mut layer: Layer<&'static str>| {
        layer.put(signing_name, "s3");
        layer
    });

    assert_eq!(*operation_config.get(signing_name).unwrap(), "s3");

    let mut open_bag = operation_config.with_fn("my_custom_info", |layer: Layer<&'static str>| layer);
    open_bag.interceptor_state().put(custom, "foo");

    assert_eq!(open_bag.num_layers(), 4);
}

#[derive(Clone, Debug, Eq, PartialEq)]
struct Interceptor(&'static str);

#[test]
fn store_append() {
    let interceptor = AppendKey::new(10);

    let mut layer: Layer<Interceptor> = Layer::new("test");
    layer.clear(interceptor);
    // items accumulate because the interceptor key declares the append policy
    layer.store_append(interceptor, Interceptor("123"));
    layer.store_append(interceptor, Interceptor("456"));

    let mut second_layer = Layer::new("next");
    second_layer.store_append(interceptor, Interceptor("789"));

    let mut bag = ConfigBag::of_layers(vec![layer, second_layer]);

    assert_eq!(
        bag.load_append(interceptor).into_vec(),
        vec![
            &Interceptor("789"),
            &Interceptor("456"),
            &Interceptor("123")
        ]
    );

    let mut final_layer = Layer::new("final");
    final_layer.clear(interceptor);
    bag.push_layer(final_layer);
    assert_eq!(bag.load_append(interceptor).count(), 0);
}

#[derive(Clone, Debug, PartialEq, Eq)]
struct TestItem(i32, i32);

#[test]
fn store_append_many_layers() {
    let test_item = AppendKey::new(11);
    let mut expected = vec![];
    let mut bag = ConfigBag::base();
    for layer_idx in 0..100 {
        let name = format!("{}", layer_idx);
        let mut layer = Layer::new(&name);
        for item in 0..100 {
            expected.push(TestItem(layer_idx, item));
            layer.store_append(test_item, TestItem(layer_idx, item));
        }
        bag.push_layer(layer);
    }
    expected.reverse();
    let collected: Vec<TestItem> = bag
        .load_append(test_item)
        .into_vec()
        .into_iter()
        .cloned()
        .collect();
    assert_eq!(collected, expected);
}

#[derive(Clone, Debug, PartialEq, Eq, Default)]
struct Foo(usize);

#[test]
fn adding_layers() {
    let foo = ReplaceKey::new(12);

    let mut layer_1: Layer<Foo> = Layer::new("layer1");
    let mut layer_2: Layer<Foo> = Layer::new("layer2");

    layer_1.store_put(foo, Foo(0));
    layer_2.store_put(foo, Foo(1));

    let layer_1 = layer_1.freeze();
    let layer_2 = layer_2.freeze();

    let mut bag_1 = ConfigBag::base();
    let mut bag_2 = ConfigBag::base();
    bag_1
        .push_shared_layer(layer_1.clone())
        .push_shared_layer(layer_2.clone());
    bag_2.push_shared_layer(layer_2).push_shared_layer(layer_1);

    // bags have same layers but in different orders
    assert_eq!(bag_1.load(foo), Some(&Foo(1)));
    assert_eq!(bag_2.load(foo), Some(&Foo(0)));

    bag_1.interceptor_state().put(foo, Foo(3));
    assert_eq!(bag_1.load(foo), Some(&Foo(3)));
}

#[derive(Clone, Debug)]
struct TestStr(String);

#[derive(Clone, Debug)]
struct Rope(String);

#[test]
fn cloning_layers() {
    let test_str = ReplaceKey::new(13);
    let mut layer_1: Layer<TestStr> = Layer::new("layer_1");
    let expected_str = "I can be cloned";
    layer_1.store_put(test_str, TestStr(expected_str.to_owned()));
    let layer_1_cloned = layer_1.clone();
    assert_eq!(expected_str, &layer_1_cloned.load(test_str).unwrap().0);

    let rope = AppendKey::new(14);
    let mut layer_2: Layer<Rope> = Layer::new("layer_2");
    layer_2.store_append(rope, Rope("A".to_owned()));
    layer_2.store_append(rope, Rope("big".to_owned()));
    layer_2.store_append(rope, Rope("rope".to_owned()));
    let layer_2_cloned = layer_2.clone();
    let rope_items: Vec<Rope> = layer_2_cloned
        .load_append(rope)
        .into_vec()
        .into_iter()
        .cloned()
        .collect();
    assert_eq!(
        "A big rope",
        rope_items
            .iter()
            .rev()
            .map(|r| r.0.clone())
            .collect::<Vec<_>>()
            .join(" ")
    );
}
