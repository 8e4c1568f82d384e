use mulch::eval::MValue;
use mulch::gc::collection::gcvalue::{GCValue, GCValueEnum, OtherGCValue};
use mulch::gc::collection::GCRoot;
use mulch::gc::gcspace::GCPtr;
use mulch::gc::primitives::boxed::GCBox;
use mulch::gc::primitives::string::GCString;
use mulch::gc::primitives::vec::GCVec;
use mulch::gc::util::GCDebug;
use mulch::gc::GarbageCollector;

fn string_of(value: GCValue, gc: &GarbageCollector) -> String {
    match value.get() {
        GCValueEnum::MValue(MValue::String(s)) => s.get(gc),
        _ => panic!(),
    }
}

#[test]
fn rooted_values_survive() {
    let mut gc = GarbageCollector::new();
    let mut root = GCRoot::new_empty();
    let inline = GCString::new(&mut gc, "short");
    let heap = GCString::new(&mut gc, "a string that lies in the heap");
    let inner = GCVec::new(&mut gc, &[MValue::String(heap), MValue::String(inline)]);
    let outer = GCVec::new(&mut gc, &[MValue::List(inner), MValue::String(heap)]);
    root.push(heap.into());
    root.push(outer.into());
    root.push(inline.into());

    gc.force_collect(&mut root);

    assert_eq!(string_of(root.get(0).unwrap(), &gc), "a string that lies in the heap");
    assert_eq!(string_of(root.get(2).unwrap(), &gc), "short");
    assert!(root.get(3).is_none());
    let MValue::List(outer) = root.get_value(1).unwrap() else { panic!() };
    let outer = outer.as_slice(&gc);
    assert_eq!(outer.len(), 2);
    let MValue::List(inner) = outer[0] else { panic!() };
    let MValue::String(second) = outer[1] else { panic!() };
    assert_eq!(second.get(&gc), "a string that lies in the heap");
    let inner = inner.as_slice(&gc);
    assert_eq!(inner.len(), 2);
    let MValue::String(first) = inner[0] else { panic!() };
    let MValue::String(last) = inner[1] else { panic!() };
    assert_eq!(first.get(&gc), "a string that lies in the heap");
    assert_eq!(last.get(&gc), "short");
    assert_eq!(
        root.get(1).unwrap().gc_debug(&gc),
        "[[\"a string that lies in the heap\", \"short\"], \"a string that lies in the heap\"]"
    );
}

#[test]
fn unrooted_values_are_freed() {
    let mut gc = GarbageCollector::new();
    let mut root = GCRoot::new_empty();
    let _garbage = GCString::new(&mut gc, "nothing keeps this string alive");
    let kept = GCString::new(&mut gc, "this string is in a root frame");
    let vec = GCVec::new(&mut gc, &[MValue::String(kept)]);
    root.push(vec.into());
    assert_eq!(gc.len(), 1 + 4 + 4 + 4);
    let old_ptr = vec.ptr();
    assert_eq!(old_ptr, 9);

    gc.force_collect(&mut root);

    // only the array and its string are left, the array first
    assert_eq!(gc.len(), 1 + 4 + 4);
    let MValue::List(moved) = root.get_value(0).unwrap() else { panic!() };
    assert_eq!(moved.ptr(), 1);
    assert_ne!(moved.ptr(), old_ptr);
    let MValue::String(kept) = moved.as_slice(&gc)[0] else { panic!() };
    assert_eq!(kept.ptr, 5);
    assert_eq!(kept.get(&gc), "this string is in a root frame");
    assert_eq!(gc.to_space.len(), 1);
}

#[test]
fn copy_is_idempotent() {
    let mut gc = GarbageCollector::new();
    let mut root = GCRoot::new_empty();
    let shared = GCString::new(&mut gc, "reachable from two root entries");
    let vec = GCVec::new(&mut gc, &[MValue::String(shared), MValue::String(shared)]);
    root.push(shared.into());
    root.push(vec.into());
    root.push(shared.into());
    root.push(vec.into());

    gc.force_collect(&mut root);

    let MValue::String(first) = root.get_value(0).unwrap() else { panic!() };
    let MValue::String(second) = root.get_value(2).unwrap() else { panic!() };
    assert_eq!(first.ptr, second.ptr);
    assert_eq!(first.ptr, 1);
    let MValue::List(a) = root.get_value(1).unwrap() else { panic!() };
    let MValue::List(b) = root.get_value(3).unwrap() else { panic!() };
    assert_eq!(a.ptr(), b.ptr());
    for element in a.as_slice(&gc) {
        let MValue::String(s) = element else { panic!() };
        assert_eq!(s.ptr, first.ptr);
        assert_eq!(s.get(&gc), "reachable from two root entries");
    }
    // one copy of the string and one of the array
    assert_eq!(gc.len(), 1 + 4 + 7);
}

#[test]
fn nested_roots() {
    let mut gc = GarbageCollector::new();
    let mut outer = GCRoot::new_empty();
    let a = GCString::new(&mut gc, "in the outermost frame of all");
    outer.push(a.into());
    let mut child = outer.new();
    let b = GCString::new(&mut gc, "in the frame of the child scope");
    child.push(b.into());
    let mut grandchild = child.new();
    let c = GCString::new(&mut gc, "in the frame of the grandchild");
    grandchild.push(c.into());
    let _garbage = GCString::new(&mut gc, "in no frame at all, so garbage");

    gc.force_collect(&mut grandchild);

    assert_eq!(gc.len(), 1 + 4 * 3);
    assert_eq!(string_of(grandchild.get(0).unwrap(), &gc), "in the frame of the grandchild");
    let child = grandchild.parent().unwrap();
    assert_eq!(string_of(child.get(0).unwrap(), &gc), "in the frame of the child scope");
    let outer = child.parent().unwrap();
    assert_eq!(string_of(outer.get(0).unwrap(), &gc), "in the outermost frame of all");
    assert!(outer.parent().is_none());
}

#[test]
fn boxed_cell_survives() {
    let mut gc = GarbageCollector::new();
    let mut root = GCRoot::new_empty();
    let _garbage = GCString::new(&mut gc, "garbage before the boxed value");
    let string = GCString::new(&mut gc, "the content of the boxed cell");
    let cell = GCBox::new(&mut gc, MValue::String(string));
    root.push(cell.into());
    assert!(root.get_value(0).is_none());

    gc.force_collect(&mut root);

    let GCValueEnum::Other(OtherGCValue::BoxMValue(moved)) = root.get(0).unwrap().get() else {
        panic!()
    };
    assert_eq!(moved.ptr, 1);
    let MValue::String(content) = moved.get(&gc) else { panic!() };
    assert_eq!(content.ptr, 4);
    assert_eq!(content.get(&gc), "the content of the boxed cell");
    assert_eq!(gc.len(), 1 + 3 + 4);
    assert_eq!(root.get(0).unwrap().gc_debug(&gc), "\"the content of the boxed cell\"");
}

#[test]
fn collect_waits_for_a_nearly_full_store() {
    let mut gc = GarbageCollector::new();
    let mut root = GCRoot::new_empty();
    // 29 strings of two blocks each: 59 of 64 blocks, less than 15/16
    for _ in 0..29 {
        let _garbage = GCString::new(&mut gc, "sixteen bytes!!!");
    }
    assert_eq!(gc.len(), 59);
    gc.collect(&mut root);
    assert_eq!(gc.len(), 59);
    // one more block: 60 of 64 blocks are 15/16
    let _garbage = GCString::new(&mut gc, "16 <= x");
    let _garbage = GCVec::new(&mut gc, &[]);
    assert_eq!(gc.len(), 60);
    gc.collect(&mut root);
    assert_eq!(gc.len(), 1);
    assert_eq!(gc.capacity(), 64);
}

#[test]
fn stores_grow_when_the_live_data_fills_them() {
    let mut gc = GarbageCollector::new();
    let mut root = GCRoot::new_empty();
    for _ in 0..30 {
        let string = GCString::new(&mut gc, "sixteen bytes!!!");
        root.push(string.into());
    }
    assert_eq!(gc.len(), 61);
    assert_eq!(gc.capacity(), 64);

    gc.collect(&mut root);

    // everything is live: 61 of 64 blocks are more than 12/16
    assert_eq!(gc.len(), 61);
    assert_eq!(gc.capacity(), 128);
    assert_eq!(gc.to_space.capacity(), 128);
    for i in 0..30 {
        assert_eq!(string_of(root.get(i).unwrap(), &gc), "sixteen bytes!!!");
    }
}

#[test]
fn stores_keep_their_size_below_three_quarters() {
    let mut gc = GarbageCollector::new();
    let mut root = GCRoot::new_empty();
    // 12/16 of 64 blocks are 48: with 47 blocks the stores stay as they are
    for _ in 0..23 {
        let string = GCString::new(&mut gc, "sixteen bytes!!!");
        root.push(string.into());
    }
    assert_eq!(gc.len(), 47);
    gc.force_collect(&mut root);
    assert_eq!(gc.len(), 47);
    assert_eq!(gc.capacity(), 64);
    // with 48 blocks they double
    let list = GCVec::new(&mut gc, &[]);
    root.push(list.into());
    assert_eq!(gc.len(), 48);
    gc.force_collect(&mut root);
    assert_eq!(gc.len(), 48);
    assert_eq!(gc.capacity(), 128);
}

#[test]
fn frames_and_cells() {
    let mut gc = GarbageCollector::new();
    let mut root = GCRoot::new_empty();
    assert!(root.get(0).is_none());
    assert!(root.get_value(0).is_none());
    let string = GCString::new(&mut gc, "x");
    let list = GCVec::new(&mut gc, &[]);
    root.push(GCValue::from(MValue::from(string)));
    root.push(GCValue::from(MValue::from(list)));
    root.push(GCValue::from(OtherGCValue::BoxMValue(GCBox { ptr: 1 })));
    assert!(matches!(root.get_value(0), Some(MValue::String(_))));
    assert!(matches!(root.get_value(1), Some(MValue::List(_))));
    assert!(root.get_value(2).is_none());
    assert!(matches!(root.get(2).unwrap().get(), GCValueEnum::Other(_)));
    {
        let slice = root.as_mut_slice();
        assert_eq!(slice.len(), 3);
        slice[2] = string.into();
    }
    assert!(matches!(root.get_value(2), Some(MValue::String(_))));
    let child = root.new();
    assert!(child.get(0).is_none());
    let root = child.parent().unwrap();
    assert!(root.get(0).is_some());
}

#[test]
fn reserved_bits() {
    assert!(!GCString::MSB_RESERVED);
    assert!(GCVec::MSB_RESERVED);
    assert!(GCBox::MSB_RESERVED);
    assert!(MValue::MSB_RESERVED);
    assert!(GCValue::MSB_RESERVED);
    assert!(!usize::MSB_RESERVED);
    assert!(!bool::MSB_RESERVED);
}
