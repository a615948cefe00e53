use lox::gc::Heap;
use lox::object::{Obj, ObjKind};

#[test]
fn test_heap_alloc_and_get() {
    let mut heap = Heap::new();
    let obj = Obj::string("hello".to_string(), 12345);
    let r = heap.allocate(obj);

    assert!(heap.is_valid(r));
    assert!(!heap.get(r).is_marked);
    if let ObjKind::String(s) = &heap.get(r).kind {
        assert_eq!(s.value, "hello");
    } else {
        panic!("Expected string object");
    }
}

#[test]
fn test_sweep_unmarked() {
    let mut heap = Heap::new();

    let r1 = heap.allocate(Obj::string("keep".to_string(), 1));
    let r2 = heap.allocate(Obj::string("sweep".to_string(), 2));

    heap.mark_object(r1);
    heap.trace_references();

    heap.sweep();

    assert!(heap.is_valid(r1));
    assert!(!heap.is_valid(r2));
}

#[test]
fn a_freed_slot_is_reused_and_marks_are_cleared() {
    let mut heap = Heap::new();
    let keep = heap.allocate(Obj::string("keep".to_string(), 1));
    let drop = heap.allocate(Obj::string("drop".to_string(), 2));
    heap.mark_object(keep);
    heap.trace_references();
    let before = heap.bytes_allocated;
    heap.sweep();
    assert!(heap.bytes_allocated < before);
    assert!(!heap.is_marked(keep));
    let again = heap.allocate(Obj::string("again".to_string(), 3));
    assert_eq!(again, drop);
    assert!(heap.is_valid(again));
}

#[test]
fn marking_follows_references() {
    let mut heap = Heap::new();
    let name = heap.allocate(Obj::string("C".to_string(), 7));
    let class = heap.allocate(Obj::class(name));
    let stray = heap.allocate(Obj::string("stray".to_string(), 8));
    heap.mark_object(class);
    heap.trace_references();
    assert!(heap.is_marked(class));
    assert!(heap.is_marked(name));
    assert!(!heap.is_marked(stray));
    heap.sweep();
    assert!(heap.is_valid(name));
    assert!(!heap.is_valid(stray));
}

#[test]
fn the_threshold_doubles_what_is_left_but_is_at_least_one_mebibyte() {
    let mut heap = Heap::new();
    heap.allocate(Obj::string("x".repeat(2000), 1));
    heap.update_threshold();
    assert_eq!(heap.next_gc, 1024 * 1024);
    heap.allocate(Obj::string("y".repeat(600_000), 2));
    let kept = heap.bytes_allocated;
    heap.update_threshold();
    assert_eq!(heap.next_gc, kept * 2);
}
