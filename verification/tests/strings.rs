use mulch::gc::blocks_needed;
use mulch::gc::primitives::string::{GCString, INLINE_MAX, STRING_SIZE};
use mulch::gc::util::{GCDebug, GCEq, GCWrap};
use mulch::gc::GarbageCollector;

#[test]
fn round_trip_inline() {
    let mut gc = GarbageCollector::new();
    for text in ["", "a", "foo bar", "fifteen bytes!!"] {
        let string = GCString::new(&mut gc, text);
        assert_eq!(string.get_inline(), Some(text));
        assert_eq!(string.get(&gc), text);
    }
    // inline strings take no room in the heap
    assert_eq!(gc.len(), 1);
}

#[test]
fn round_trip_heap() {
    let mut gc = GarbageCollector::new();
    let text = "the quick brown fox jumps over the lazy dog";
    let string = GCString::new(&mut gc, text);
    assert_eq!(string.get_inline(), None);
    assert_eq!(string.get(&gc), text);
    assert_eq!(string.ptr, 1);
    assert_eq!(string.len, 43);
    assert_eq!(gc.len(), 1 + 6);
}

#[test]
fn round_trip_unicode() {
    let mut gc = GarbageCollector::new();
    let short = GCString::new(&mut gc, "héllo ☃");
    let long = GCString::new(&mut gc, "grüße, 世界! — ünïcödé strîng ☃☃☃");
    assert_eq!(short.get_inline(), Some("héllo ☃"));
    assert_eq!(long.get_inline(), None);
    assert_eq!(short.get(&gc), "héllo ☃");
    assert_eq!(long.get(&gc), "grüße, 世界! — ünïcödé strîng ☃☃☃");
}

#[test]
fn inline_boundary() {
    assert_eq!(STRING_SIZE, 16);
    assert_eq!(INLINE_MAX, 127);
    let mut gc = GarbageCollector::new();

    let fifteen = "a".repeat(STRING_SIZE - 1);
    let inline = GCString::new(&mut gc, &fifteen);
    assert_eq!(inline.get_inline(), Some(fifteen.as_str()));
    assert_eq!(inline.ptr, 0);
    assert_eq!(gc.len(), 1);

    let sixteen = "a".repeat(STRING_SIZE);
    let heap = GCString::new(&mut gc, &sixteen);
    assert_eq!(heap.get_inline(), None);
    assert_eq!(heap.ptr, 1);
    assert_eq!(gc.len(), 3);
    assert_eq!(heap.get(&gc), sixteen);
}

#[test]
fn long_string_boundary() {
    let mut gc = GarbageCollector::new();
    let a = "b".repeat(127);
    let b = "c".repeat(128);
    let c = "d".repeat(129);
    let sa = GCString::new(&mut gc, &a);
    assert_eq!(gc.len(), 1 + 16);
    let sb = GCString::new(&mut gc, &b);
    assert_eq!(gc.len(), 1 + 16 + 16);
    let sc = GCString::new(&mut gc, &c);
    assert_eq!(gc.len(), 1 + 16 + 16 + 17);
    assert_eq!(sa.get_inline(), None);
    assert_eq!(sb.get_inline(), None);
    assert_eq!(sc.get_inline(), None);
    assert_eq!(sa.get(&gc), a);
    assert_eq!(sb.get(&gc), b);
    assert_eq!(sc.get(&gc), c);
}

#[test]
fn blocks_needed_values() {
    assert_eq!(blocks_needed(0), 0);
    assert_eq!(blocks_needed(1), 1);
    assert_eq!(blocks_needed(8), 1);
    assert_eq!(blocks_needed(9), 2);
    assert_eq!(blocks_needed(16), 2);
    assert_eq!(blocks_needed(43), 6);
}

#[test]
fn forged_inline_string_is_not_read() {
    let mut gc = GarbageCollector::new();
    let mut string = GCString::new(&mut gc, "abc");
    // not UTF-8
    string.bytes[0] = 0xFF;
    assert_eq!(string.get_inline(), None);
    // too long to be inline
    string.bytes[0] = b'a';
    string.len = 16;
    assert_eq!(string.get_inline(), None);
}

#[test]
fn string_debug_and_eq() {
    let mut gc = GarbageCollector::new();
    let short = GCString::new(&mut gc, "say \"hi\"");
    let long = GCString::new(&mut gc, "a long string, with a\ttab in it");
    assert_eq!(short.gc_debug(&gc), "\"say \\\"hi\\\"\"");
    assert_eq!(long.gc_debug(&gc), "\"a long string, with a\\ttab in it\"");
    assert!(short.gc_eq(&gc, "say \"hi\""));
    assert!(!short.gc_eq(&gc, "say hi"));
    assert!(long.gc_eq(&gc, "a long string, with a\ttab in it"));

    let mut other = GarbageCollector::new();
    let same = GCString::new(&mut other, "a long string, with a\ttab in it");
    let wrapped = GCWrap::new(same, &other);
    assert_eq!(wrapped.get(), "a long string, with a\ttab in it");
    assert_eq!(wrapped.debug(), "\"a long string, with a\\ttab in it\"");
    assert!(long.gc_eq(&gc, &wrapped));
    assert!(!short.gc_eq(&gc, &wrapped));
}
