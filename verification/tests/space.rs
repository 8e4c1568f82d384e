use mulch::eval::MValue;
use mulch::gc::gcspace::{Block, GCSpace, STARTING_BLOCKS};
use mulch::gc::primitives::boxed::GCBox;
use mulch::gc::primitives::string::GCString;
use mulch::gc::primitives::vec::{GCVec, VALUE_BLOCKS, VALUE_SIZE};
use mulch::gc::{GarbageCollector, BLOCK_SIZE};

#[test]
fn new_space() {
    let space = GCSpace::new();
    assert_eq!(STARTING_BLOCKS, 64);
    assert_eq!(space.capacity(), 64);
    // block 0 is reserved
    assert_eq!(space.len(), 1);
    assert!(matches!(space.block_ptr(0), Block::Free));
    assert!(matches!(space.block_ptr(63), Block::Free));
}

#[test]
fn expand_doubles() {
    let mut space = GCSpace::new();
    space.expand(10);
    assert_eq!(space.capacity(), 64);
    space.expand(64);
    assert_eq!(space.capacity(), 64);
    space.expand(65);
    assert_eq!(space.capacity(), 128);
    space.expand(513);
    assert_eq!(space.capacity(), 1024);
    assert_eq!(space.len(), 1);
}

#[test]
fn max_len_is_half_the_address_range() {
    assert_eq!(GCSpace::max_len(), usize::MAX / 2 + 1);
}

#[test]
fn set_len_claims_and_grows() {
    let mut space = GCSpace::new();
    space.set_len(5);
    assert_eq!(space.len(), 5);
    assert_eq!(space.capacity(), 64);
    space.set_len(5);
    assert_eq!(space.len(), 5);
    space.set_len(200);
    assert_eq!(space.len(), 200);
    assert_eq!(space.capacity(), 256);
    space.write(7, Block::Len(3));
    assert!(matches!(space.block_ptr(7), Block::Len(3)));
    assert!(matches!(space.block_ptr(8), Block::Free));
}

#[test]
fn clear_forgets_everything() {
    let mut space = GCSpace::new();
    let string = space.alloc_string("a string that does not fit inline");
    assert_eq!(string.ptr, 1);
    assert_eq!(space.len(), 6);
    assert!(matches!(space.block_ptr(1), Block::Bytes(_)));
    space.clear();
    assert_eq!(space.len(), 1);
    assert_eq!(space.capacity(), 64);
    assert!(matches!(space.block_ptr(1), Block::Free));
    let again = space.alloc_string("another string that does not fit");
    assert_eq!(again.ptr, 1);
    assert_eq!(space.get_string(&again), "another string that does not fit");
}

#[test]
fn string_blocks() {
    let mut space = GCSpace::new();
    let string = space.alloc_string("0123456789abcdef!");
    assert_eq!(space.len(), 4);
    match space.block_ptr(string.ptr) {
        Block::Bytes(chunk) => assert_eq!(chunk, b"01234567"),
        _ => panic!(),
    }
    match space.block_ptr(string.ptr + 2) {
        Block::Bytes(chunk) => assert_eq!(chunk, b"!\0\0\0\0\0\0\0"),
        _ => panic!(),
    }
}

#[test]
fn vec_layout() {
    assert_eq!(BLOCK_SIZE, 8);
    assert_eq!(VALUE_SIZE, 24);
    assert_eq!(VALUE_BLOCKS, 3);
    let mut gc = GarbageCollector::new();
    let a = GCString::new(&mut gc, "a");
    let b = GCString::new(&mut gc, "a string in the heap");
    assert_eq!(gc.len(), 4);
    let elements = [MValue::String(a), MValue::String(b), MValue::String(a)];
    let vec = GCVec::new(&mut gc, &elements);
    // a header block and three blocks for each element
    assert_eq!(vec.ptr(), 4);
    assert_eq!(gc.len(), 4 + 1 + 3 * 3);
    assert!(matches!(gc.from_space.block_ptr(4), Block::Len(3)));
    assert_eq!(gc.from_space.element_ptr_unchecked(vec, 0), 5);
    assert_eq!(gc.from_space.element_ptr_unchecked(vec, 2), 11);
    assert_eq!(gc.from_space.element_ptr(vec, 0), Some(5));
    assert_eq!(gc.from_space.element_ptr(vec, 1), Some(8));
    assert_eq!(gc.from_space.element_ptr(vec, 2), Some(11));
    assert_eq!(gc.from_space.element_ptr(vec, 3), None);
    assert!(matches!(gc.from_space.block_ptr(8), Block::Value(MValue::String(_))));

    let read = vec.as_slice(&gc);
    assert_eq!(read.len(), 3);
    match read[1] {
        MValue::String(s) => assert_eq!(s.get(&gc), "a string in the heap"),
        _ => panic!(),
    }
}

#[test]
fn empty_vec() {
    let mut gc = GarbageCollector::new();
    let vec = GCVec::new(&mut gc, &[]);
    assert_eq!(vec.ptr(), 1);
    assert_eq!(gc.len(), 2);
    assert_eq!(vec.as_slice(&gc).len(), 0);
    assert_eq!(gc.from_space.element_ptr(vec, 0), None);
    let uninit = gc.from_space.alloc_uninit_vec(2);
    assert_eq!(uninit.ptr(), 2);
    assert_eq!(gc.from_space.len(), 2 + 1 + 6);
    assert!(matches!(gc.from_space.block_ptr(2), Block::Len(2)));
    assert!(matches!(gc.from_space.block_ptr(3), Block::Free));
}

#[test]
fn boxed_cell() {
    let mut gc = GarbageCollector::new();
    let string = GCString::new(&mut gc, "boxed, and long enough for the heap");
    let before = gc.len();
    let cell = GCBox::new(&mut gc, MValue::String(string));
    // a value reserves its leading bit: no block is added for the flag
    assert_eq!(gc.len(), before + 3);
    assert_eq!(cell.ptr, before);
    assert_eq!(cell.ptr_in_space(&gc.from_space), before);
    assert_eq!(cell.flag_in_space(&gc.from_space), before);
    match cell.get(&gc) {
        MValue::String(s) => assert_eq!(s.get(&gc), "boxed, and long enough for the heap"),
        _ => panic!(),
    }
}

#[test]
fn allocation_grows_both_stores() {
    let mut gc = GarbageCollector::new();
    assert_eq!(gc.capacity(), 64);
    let text = "x".repeat(8 * 70);
    let string = GCString::new(&mut gc, &text);
    assert_eq!(gc.len(), 71);
    assert_eq!(gc.capacity(), 128);
    assert_eq!(gc.from_space.capacity(), 128);
    assert_eq!(gc.to_space.capacity(), 128);
    assert_eq!(gc.to_space.len(), 1);
    assert_eq!(string.get(&gc), text);
}
