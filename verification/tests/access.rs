use js_runtime::access::{get, replace, Fault};
use js_runtime::create::{
    new_array, new_bool, new_func, new_null, new_num, new_object, new_str, new_undefined,
};
use js_runtime::heap::Heap;
use js_runtime::invoke::for_each_variant;
use js_runtime::value::{JsValue, JsVar};

fn num(x: f64) -> u64 {
    x.to_bits()
}

fn number_in(heap: &Heap, var: JsVar) -> f64 {
    match heap.value(var) {
        JsValue::Number(bits) => f64::from_bits(*bits),
        other => panic!("not a number: {:?}", other),
    }
}

fn text_in(heap: &Heap, var: JsVar) -> String {
    match heap.value(var) {
        JsValue::String(s) => s.clone(),
        other => panic!("not a string: {:?}", other),
    }
}

fn is_undefined(heap: &Heap, var: JsVar) -> bool {
    matches!(heap.value(var), JsValue::Undefined)
}

fn items_in(heap: &Heap, var: JsVar) -> Vec<JsVar> {
    match heap.value(var) {
        JsValue::Array(items) => items.clone(),
        other => panic!("not an array: {:?}", other),
    }
}

fn length_of(heap: &mut Heap, arr: JsVar) -> f64 {
    let n = get(heap, arr, "length");
    number_in(heap, n)
}

fn three_numbers(heap: &mut Heap) -> (JsVar, Vec<JsVar>) {
    let a = new_num(heap, num(10.0));
    let b = new_num(heap, num(20.0));
    let c = new_num(heap, num(30.0));
    let arr = new_array(heap, vec![a, b, c]);
    (arr, vec![a, b, c])
}

#[test]
fn a_missing_key_of_an_object_reads_as_undefined() {
    let mut heap = Heap::new();
    let one = new_num(&mut heap, num(1.0));
    let object = new_object(&mut heap, vec![("a".to_string(), one)]);
    let r = get(&mut heap, object, "b");
    assert!(is_undefined(&heap, r));
    let s = get(&mut heap, object, "length");
    assert!(is_undefined(&heap, s));
}

#[test]
fn a_key_of_an_object_reads_the_cell_itself() {
    let mut heap = Heap::new();
    let one = new_num(&mut heap, num(1.0));
    let object = new_object(&mut heap, vec![("a".to_string(), one)]);
    let before = heap.len();
    let r = get(&mut heap, object, "a");
    assert_eq!(r, one);
    assert_eq!(heap.len(), before);
}

#[test]
fn setting_a_property_adds_or_overwrites_it() {
    let mut heap = Heap::new();
    let one = new_num(&mut heap, num(1.0));
    let two = new_num(&mut heap, num(2.0));
    let object = new_object(&mut heap, vec![]);
    assert_eq!(js_runtime::access::set(&mut heap, object, "a", one), Ok(one));
    assert_eq!(get(&mut heap, object, "a"), one);
    assert_eq!(js_runtime::access::set(&mut heap, object, "b", two), Ok(two));
    assert_eq!(js_runtime::access::set(&mut heap, object, "a", two), Ok(two));
    assert_eq!(get(&mut heap, object, "a"), two);
    assert_eq!(get(&mut heap, object, "b"), two);
    match heap.value(object) {
        JsValue::Object(entries) => {
            assert_eq!(entries.len(), 2);
            assert_eq!(entries[0], ("a".to_string(), two));
            assert_eq!(entries[1], ("b".to_string(), two));
        }
        other => panic!("not an object: {:?}", other),
    }
}

#[test]
fn any_text_is_a_key_of_an_object() {
    let mut heap = Heap::new();
    let one = new_num(&mut heap, num(1.0));
    let object = new_object(&mut heap, vec![]);
    for key in ["", "0", "length", "a b", "ação"] {
        assert_eq!(js_runtime::access::set(&mut heap, object, key, one), Ok(one));
        assert_eq!(get(&mut heap, object, key), one);
    }
}

#[test]
fn a_new_object_keeps_the_last_of_two_pairs_with_one_key() {
    let mut heap = Heap::new();
    let one = new_num(&mut heap, num(1.0));
    let two = new_num(&mut heap, num(2.0));
    let three = new_num(&mut heap, num(3.0));
    let object = new_object(
        &mut heap,
        vec![("a".to_string(), one), ("b".to_string(), two), ("a".to_string(), three)],
    );
    assert_eq!(get(&mut heap, object, "a"), three);
    assert_eq!(get(&mut heap, object, "b"), two);
    match heap.value(object) {
        JsValue::Object(entries) => assert_eq!(entries.len(), 2),
        other => panic!("not an object: {:?}", other),
    }
}

#[test]
fn the_length_of_an_array_is_its_count() {
    let mut heap = Heap::new();
    let (arr, _) = three_numbers(&mut heap);
    assert_eq!(length_of(&mut heap, arr), 3.0);
    let empty = new_array(&mut heap, vec![]);
    assert_eq!(length_of(&mut heap, empty), 0.0);
}

#[test]
fn an_index_within_an_array_reads_the_cell_itself() {
    let mut heap = Heap::new();
    let (arr, items) = three_numbers(&mut heap);
    assert_eq!(get(&mut heap, arr, "0"), items[0]);
    assert_eq!(get(&mut heap, arr, "1"), items[1]);
    assert_eq!(get(&mut heap, arr, "2"), items[2]);
    assert_eq!(get(&mut heap, arr, "+1"), items[1]);
    assert_eq!(get(&mut heap, arr, "002"), items[2]);
}

#[test]
fn other_keys_of_an_array_read_as_undefined() {
    let mut heap = Heap::new();
    let (arr, _) = three_numbers(&mut heap);
    for key in ["3", "4", "-1", "1.0", "", "abc", "Length", " 1", "99999999999999999999999"] {
        let r = get(&mut heap, arr, key);
        assert!(is_undefined(&heap, r), "{:?}", key);
    }
}

#[test]
fn setting_at_the_length_appends_one_element() {
    let mut heap = Heap::new();
    let (arr, items) = three_numbers(&mut heap);
    let extra = new_num(&mut heap, num(40.0));
    assert_eq!(js_runtime::access::set(&mut heap, arr, "3", extra), Ok(extra));
    assert_eq!(items_in(&heap, arr), vec![items[0], items[1], items[2], extra]);
    assert_eq!(length_of(&mut heap, arr), 4.0);
    assert_eq!(get(&mut heap, arr, "3"), extra);
}

#[test]
fn setting_beyond_the_length_changes_nothing() {
    let mut heap = Heap::new();
    let (arr, items) = three_numbers(&mut heap);
    let extra = new_num(&mut heap, num(40.0));
    assert_eq!(js_runtime::access::set(&mut heap, arr, "4", extra), Ok(extra));
    assert_eq!(js_runtime::access::set(&mut heap, arr, "100", extra), Ok(extra));
    assert_eq!(items_in(&heap, arr), items);
    assert_eq!(length_of(&mut heap, arr), 3.0);
}

#[test]
fn setting_within_the_length_overwrites() {
    let mut heap = Heap::new();
    let (arr, items) = three_numbers(&mut heap);
    let extra = new_num(&mut heap, num(40.0));
    assert_eq!(js_runtime::access::set(&mut heap, arr, "1", extra), Ok(extra));
    assert_eq!(items_in(&heap, arr), vec![items[0], extra, items[2]]);
    assert_eq!(length_of(&mut heap, arr), 3.0);
}

#[test]
fn setting_a_malformed_key_of_an_array_changes_nothing() {
    let mut heap = Heap::new();
    let (arr, items) = three_numbers(&mut heap);
    let extra = new_num(&mut heap, num(40.0));
    for key in ["length", "-1", "x", "", "1.5", "3 ", "18446744073709551616"] {
        assert_eq!(js_runtime::access::set(&mut heap, arr, key, extra), Ok(extra));
        assert_eq!(items_in(&heap, arr), items);
    }
}

#[test]
fn the_length_follows_every_append() {
    let mut heap = Heap::new();
    let arr = new_array(&mut heap, vec![]);
    for i in 0..12 {
        assert_eq!(length_of(&mut heap, arr), i as f64);
        let cell = new_num(&mut heap, num(i as f64));
        let key = i.to_string();
        assert_eq!(js_runtime::access::set(&mut heap, arr, &key, cell), Ok(cell));
    }
    assert_eq!(length_of(&mut heap, arr), 12.0);
}

#[test]
fn what_is_no_container_reads_as_undefined_and_ignores_writes() {
    let mut heap = Heap::new();
    let one = new_num(&mut heap, num(1.0));
    let others = vec![
        new_undefined(&mut heap),
        new_null(&mut heap),
        new_num(&mut heap, num(5.0)),
        new_str(&mut heap, "text"),
        new_bool(&mut heap, true),
        new_func(&mut heap, 2),
    ];
    for cell in others {
        let before = format!("{:?}", heap.value(cell));
        assert_eq!(js_runtime::access::set(&mut heap, cell, "0", one), Ok(one));
        assert_eq!(format!("{:?}", heap.value(cell)), before);
        let r = get(&mut heap, cell, "0");
        assert!(is_undefined(&heap, r));
        let s = get(&mut heap, cell, "length");
        assert!(is_undefined(&heap, s));
    }
}

#[test]
fn text_has_no_length_key() {
    let mut heap = Heap::new();
    let word = new_str(&mut heap, "hello");
    let r = get(&mut heap, word, "length");
    assert!(is_undefined(&heap, r));
}

#[test]
fn replacing_is_seen_through_every_holder_of_the_cell() {
    let mut heap = Heap::new();
    let dest = new_num(&mut heap, num(1.0));
    let alias = dest;
    let lookalike = new_num(&mut heap, num(1.0));
    let src = new_str(&mut heap, "new");
    let object = new_object(&mut heap, vec![("p".to_string(), dest)]);
    let array = new_array(&mut heap, vec![dest, lookalike]);
    assert_eq!(replace(&mut heap, dest, src), Ok(dest));
    assert_eq!(text_in(&heap, alias), "new");
    let through_object = get(&mut heap, object, "p");
    let through_array = get(&mut heap, array, "0");
    assert_eq!(text_in(&heap, through_object), "new");
    assert_eq!(text_in(&heap, through_array), "new");
    assert_eq!(number_in(&heap, lookalike), 1.0);
    let untouched = get(&mut heap, array, "1");
    assert_eq!(number_in(&heap, untouched), 1.0);
    assert_eq!(text_in(&heap, src), "new");
}

#[test]
fn replacing_copies_the_content_and_not_the_identity() {
    let mut heap = Heap::new();
    let dest = new_num(&mut heap, num(1.0));
    let src = new_num(&mut heap, num(2.0));
    let other = new_num(&mut heap, num(3.0));
    assert_eq!(replace(&mut heap, dest, src), Ok(dest));
    assert_ne!(dest, src);
    assert_eq!(replace(&mut heap, src, other), Ok(src));
    assert_eq!(number_in(&heap, dest), 2.0);
    assert_eq!(number_in(&heap, src), 3.0);
}

#[test]
fn replacing_by_an_array_shares_its_elements() {
    let mut heap = Heap::new();
    let (arr, items) = three_numbers(&mut heap);
    let dest = new_null(&mut heap);
    assert_eq!(replace(&mut heap, dest, arr), Ok(dest));
    assert_eq!(items_in(&heap, dest), items);
    let extra = new_num(&mut heap, num(40.0));
    assert_eq!(js_runtime::access::set(&mut heap, dest, "3", extra), Ok(extra));
    assert_eq!(items_in(&heap, arr).len(), 3);
    assert_eq!(items_in(&heap, dest).len(), 4);
    let nine = new_num(&mut heap, num(9.0));
    assert_eq!(replace(&mut heap, items[0], nine), Ok(items[0]));
    let first_of_dest = get(&mut heap, dest, "0");
    let first_of_arr = get(&mut heap, arr, "0");
    assert_eq!(number_in(&heap, first_of_dest), 9.0);
    assert_eq!(number_in(&heap, first_of_arr), 9.0);
}

#[test]
fn a_cell_can_be_replaced_by_itself() {
    let mut heap = Heap::new();
    let cell = new_str(&mut heap, "same");
    assert_eq!(replace(&mut heap, cell, cell), Ok(cell));
    assert_eq!(text_in(&heap, cell), "same");
}

#[test]
fn a_container_can_hold_itself() {
    let mut heap = Heap::new();
    let arr = new_array(&mut heap, vec![]);
    assert_eq!(js_runtime::access::set(&mut heap, arr, "0", arr), Ok(arr));
    assert_eq!(get(&mut heap, arr, "0"), arr);
    assert_eq!(length_of(&mut heap, arr), 1.0);
}

#[test]
fn a_copy_of_a_value_holds_the_same() {
    let mut heap = Heap::new();
    let (arr, items) = three_numbers(&mut heap);
    let object = new_object(&mut heap, vec![("k".to_string(), items[0])]);
    let word = new_str(&mut heap, "w");
    match heap.value(arr).clone() {
        JsValue::Array(copied) => assert_eq!(copied, items),
        other => panic!("not an array: {:?}", other),
    }
    match heap.value(object).clone() {
        JsValue::Object(copied) => assert_eq!(copied, vec![("k".to_string(), items[0])]),
        other => panic!("not an object: {:?}", other),
    }
    match heap.value(word).clone() {
        JsValue::String(copied) => assert_eq!(copied, "w"),
        other => panic!("not text: {:?}", other),
    }
}

#[test]
fn changing_a_traversed_array_is_a_reentrancy_conflict() {
    let mut heap = Heap::new();
    let (arr, items) = three_numbers(&mut heap);
    let extra = new_num(&mut heap, num(40.0));
    let results = std::cell::RefCell::new(Vec::new());
    let step = |mut h: Heap, args: Vec<JsVar>| -> (Heap, JsVar) {
        assert!(h.is_viewed(args[2]));
        results.borrow_mut().push(js_runtime::access::set(&mut h, args[2], "3", extra));
        results.borrow_mut().push(replace(&mut h, args[2], extra));
        let r = args[0];
        (h, r)
    };
    for_each_variant(&mut heap, arr, &step);
    assert_eq!(results.borrow().len(), 6);
    for r in results.borrow().iter() {
        assert_eq!(*r, Err(Fault::ReentrancyConflict));
    }
    assert_eq!(items_in(&heap, arr), items);
    assert!(!heap.is_viewed(arr));
    assert_eq!(js_runtime::access::set(&mut heap, arr, "3", extra), Ok(extra));
}

#[test]
fn a_traversed_array_can_still_be_read() {
    let mut heap = Heap::new();
    let (arr, _) = three_numbers(&mut heap);
    let lengths = std::cell::RefCell::new(Vec::new());
    let step = |mut h: Heap, args: Vec<JsVar>| -> (Heap, JsVar) {
        let n = get(&mut h, args[2], "length");
        lengths.borrow_mut().push(number_in(&h, n));
        (h, n)
    };
    for_each_variant(&mut heap, arr, &step);
    assert_eq!(*lengths.borrow(), vec![3.0, 3.0, 3.0]);
}
