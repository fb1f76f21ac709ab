use js_runtime::create::{new_array, new_num, new_str};
use js_runtime::heap::Heap;
use js_runtime::value::{JsFunc, JsValue, JsVar};

#[test]
fn a_new_heap_is_empty() {
    let mut heap = Heap::new();
    assert_eq!(heap.len(), 0);
    assert!(!heap.contains(JsVar { slot: 0 }));
    assert!(heap.take_output().is_empty());
}

#[test]
fn cells_get_their_handles_in_order() {
    let mut heap = Heap::new();
    let a = new_num(&mut heap, 1);
    let b = new_str(&mut heap, "b");
    let c = heap.allocate(JsValue::Function(JsFunc::Resolver));
    assert_eq!((a.slot, b.slot, c.slot), (0, 1, 2));
    assert_eq!(heap.len(), 3);
    assert!(heap.contains(c));
    assert!(!heap.contains(JsVar { slot: 3 }));
    assert!(matches!(heap.value(a), JsValue::Number(1)));
    assert!(matches!(heap.value(c), JsValue::Function(JsFunc::Resolver)));
}

#[test]
fn a_fresh_cell_is_not_viewed() {
    let mut heap = Heap::new();
    let a = new_num(&mut heap, 1);
    assert!(!heap.is_viewed(a));
    assert!(heap.can_enter(a));
}

#[test]
fn two_handles_are_one_cell_exactly_when_they_are_equal() {
    let mut heap = Heap::new();
    let a = new_num(&mut heap, 7);
    let b = new_num(&mut heap, 7);
    let alias = a;
    assert_eq!(a, alias);
    assert_ne!(a, b);
}

#[test]
fn written_lines_come_out_in_order_and_once() {
    let mut heap = Heap::new();
    heap.emit("first".to_string());
    heap.emit("second".to_string());
    assert_eq!(heap.take_output(), vec!["first".to_string(), "second".to_string()]);
    assert!(heap.take_output().is_empty());
    heap.emit("third".to_string());
    assert_eq!(heap.take_output(), vec!["third".to_string()]);
}

#[test]
fn the_clone_of_a_value_shares_its_cells() {
    let mut heap = Heap::new();
    let a = new_num(&mut heap, 1);
    let arr = new_array(&mut heap, vec![a, a]);
    match heap.value(arr).clone() {
        JsValue::Array(items) => assert_eq!(items, vec![a, a]),
        other => panic!("not an array: {:?}", other),
    }
    assert!(matches!(JsValue::Null.clone(), JsValue::Null));
    assert!(matches!(JsValue::Boolean(true).clone(), JsValue::Boolean(true)));
    assert!(matches!(
        JsValue::Function(JsFunc::Native(4)).clone(),
        JsValue::Function(JsFunc::Native(4))
    ));
}
