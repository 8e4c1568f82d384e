use mulch::eval::MValue;
use mulch::gc::collection::GCRoot;
use mulch::gc::primitives::string::GCString;
use mulch::gc::primitives::vec::GCVec;
use mulch::gc::GarbageCollector;

#[test]
fn string_list_test() {
    let mut gc = GarbageCollector::new();
    let root = GCRoot::new_empty();

    let expected = ["alpha", "beta", "c", "abcdefghijklmnopqrstuvwxyz"];
    let (list, _root) = create_string_list(&expected, &mut gc, root);

    let MValue::List(list) = list else { panic!() };

    let list = list.as_slice(&gc);

    assert_eq!(list.len(), expected.len());

    for (i, s) in list.iter().enumerate() {
        let MValue::String(gcstr) = s else { panic!() };

        assert_eq!(gcstr.get(&gc), expected[i]);
    }
}

fn create_string_list(
    strings: &[&'static str],
    gc: &mut GarbageCollector,
    parent_root: GCRoot,
) -> (MValue, GCRoot) {
    let mut root = parent_root.new();

    for s in strings {
        let (value, back) = create_string_val(s, gc, root);
        root = back;
        root.push(value.into());
    }

    let (_unused, mut root) = create_string_val("fffffffffffffffffffffffffffffffffffffffff", gc, root);
    // This value is not used, so it should be freed next cycle

    let elements: Vec<MValue> = root
        .as_mut_slice()
        .iter()
        .map(|value| value.as_mvalue().unwrap())
        .collect();
    let vec = GCVec::new(gc, &elements);

    let parent_root = root.parent().unwrap();
    let mut root = parent_root.new();
    root.push(vec.into());

    let old_ptr = vec.ptr();

    gc.force_collect(&mut root);

    let vec = root.get_value(0).unwrap();

    let MValue::List(inner) = vec else { panic!() };

    // The array was moved: the unused string was not copied during the cycle.
    assert_ne!(old_ptr, inner.ptr());

    (vec, root.parent().unwrap())
}

fn create_string_val(val: &str, gc: &mut GarbageCollector, root: GCRoot) -> (MValue, GCRoot) {
    let string = GCString::new(gc, val);

    let mut root = root.new();
    root.push(string.into());

    gc.force_collect(&mut root);

    let value = root.get_value(0).unwrap();
    (value, root.parent().unwrap())
}
