use buckeval::heap::freeze;
use buckeval::heap::FreezeError;
use buckeval::heap::FrozenValue;
use buckeval::heap::Heap;
use buckeval::heap::HeapValue;

#[test]
fn freeze_preserves_reachable_structure() {
    // A list sharing a sub-value: after the freeze, every reachable cell
    // keeps its index, its scalar content and its child references.
    let mut heap = Heap::new();
    let a = heap.allocate(HeapValue::Int(3)).unwrap();
    let b = heap.allocate(HeapValue::Str("x".to_string())).unwrap();
    let inner = heap.allocate(HeapValue::Tuple(vec![a, b])).unwrap();
    let list = heap.allocate(HeapValue::List(vec![a, inner, inner])).unwrap();
    let frozen = freeze(&heap, &vec![list]).unwrap();
    assert_eq!(frozen.roots, vec![list]);
    assert_eq!(frozen.heap.cells[a], FrozenValue::Int(3));
    assert_eq!(frozen.heap.cells[b], FrozenValue::Str("x".to_string()));
    assert_eq!(frozen.heap.cells[inner], FrozenValue::Tuple(vec![a, b]));
    assert_eq!(frozen.heap.cells[list], FrozenValue::List(vec![a, inner, inner]));
}

#[test]
fn freeze_resolves_bound_declared_values() {
    // A declared value bound to content freezes to that content.
    let mut heap = Heap::new();
    let content = heap.allocate(HeapValue::Int(42)).unwrap();
    let declared = heap.allocate(HeapValue::Declared { bound: None }).unwrap();
    assert!(heap.bind(declared, content));
    let frozen = freeze(&heap, &vec![declared]).unwrap();
    assert_eq!(frozen.heap.cells[declared], FrozenValue::Int(42));
}

#[test]
fn freeze_fails_on_unbound_declared_value() {
    let mut heap = Heap::new();
    let declared = heap.allocate(HeapValue::Declared { bound: None }).unwrap();
    let list = heap.allocate(HeapValue::List(vec![declared])).unwrap();
    assert_eq!(freeze(&heap, &vec![list]), Err(FreezeError::Unbound));
}

#[test]
fn freeze_fails_on_cyclic_binding_chain() {
    let mut heap = Heap::new();
    let d1 = heap.allocate(HeapValue::Declared { bound: None }).unwrap();
    let d2 = heap.allocate(HeapValue::Declared { bound: None }).unwrap();
    assert!(heap.bind(d1, d2));
    assert!(heap.bind(d2, d1));
    assert_eq!(freeze(&heap, &vec![d1]), Err(FreezeError::Cycle));
}

#[test]
fn unreachable_values_do_not_block_freezing() {
    // An unbound declared value that no root reaches is no obstacle.
    let mut heap = Heap::new();
    let kept = heap.allocate(HeapValue::Int(1)).unwrap();
    let _stray = heap.allocate(HeapValue::Declared { bound: None }).unwrap();
    let frozen = freeze(&heap, &vec![kept]).unwrap();
    assert_eq!(frozen.heap.cells[kept], FrozenValue::Int(1));
}

#[test]
fn gc_clears_exactly_the_unreachable() {
    let mut heap = Heap::new();
    let a = heap.allocate(HeapValue::Int(1)).unwrap();
    let b = heap.allocate(HeapValue::Int(2)).unwrap();
    let keep = heap.allocate(HeapValue::List(vec![a])).unwrap();
    heap.gc(&vec![keep]);
    assert!(matches!(heap.cells[a], HeapValue::Int(1)));
    assert!(matches!(heap.cells[keep], HeapValue::List(_)));
    assert!(matches!(heap.cells[b], HeapValue::NoneV));
}

#[test]
fn allocate_rejects_dangling_references() {
    let mut heap = Heap::new();
    assert!(heap.allocate(HeapValue::List(vec![3])).is_none());
    let a = heap.allocate(HeapValue::Int(1)).unwrap();
    assert!(heap.allocate(HeapValue::List(vec![a])).is_some());
}
