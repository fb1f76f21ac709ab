//! Making cells: one constructor for each kind of value.
use vstd::prelude::*;
use crate::heap::Heap;
use crate::value::{
    JsFunc,
    JsValue,
    JsVar,
    Value,
    collect,
    distinct_keys,
    entries_view,
    has_key,
    key_position,
    lemma_upsert,
    upsert,
};

verus! {

/// A new cell that holds the undefined value.
pub fn new_undefined(heap: &mut Heap) -> (var: JsVar)
    requires
        old(heap).wf(),
    ensures
        final(heap)@ == old(heap)@.allocate(Value::Undefined),
        var == old(heap)@.next(),
        final(heap).wf(),
        final(heap)@.extends(old(heap)@),
{
    heap.allocate(JsValue::Undefined)
}

/// A new cell that holds null.
pub fn new_null(heap: &mut Heap) -> (var: JsVar)
    requires
        old(heap).wf(),
    ensures
        final(heap)@ == old(heap)@.allocate(Value::Null),
        var == old(heap)@.next(),
        final(heap).wf(),
        final(heap)@.extends(old(heap)@),
{
    heap.allocate(JsValue::Null)
}

/// A new cell that holds the number with the bit pattern `bits`.
pub fn new_num(heap: &mut Heap, bits: u64) -> (var: JsVar)
    requires
        old(heap).wf(),
    ensures
        final(heap)@ == old(heap)@.allocate(Value::Number(bits)),
        var == old(heap)@.next(),
        final(heap).wf(),
        final(heap)@.extends(old(heap)@),
{
    heap.allocate(JsValue::Number(bits))
}

/// A new cell that holds a copy of the text `s`.
pub fn new_str(heap: &mut Heap, s: &str) -> (var: JsVar)
    requires
        old(heap).wf(),
    ensures
        final(heap)@ == old(heap)@.allocate(Value::String(s@)),
        var == old(heap)@.next(),
        final(heap).wf(),
        final(heap)@.extends(old(heap)@),
{
    heap.allocate(JsValue::String(String::from_str(s)))
}

/// A new cell that holds a boolean.
pub fn new_bool(heap: &mut Heap, b: bool) -> (var: JsVar)
    requires
        old(heap).wf(),
    ensures
        final(heap)@ == old(heap)@.allocate(Value::Boolean(b)),
        var == old(heap)@.next(),
        final(heap).wf(),
        final(heap)@.extends(old(heap)@),
{
    heap.allocate(JsValue::Boolean(b))
}

/// A new cell that holds the host's function number `id`.
pub fn new_func(heap: &mut Heap, id: u64) -> (var: JsVar)
    requires
        old(heap).wf(),
    ensures
        final(heap)@ == old(heap)@.allocate(Value::Function(JsFunc::Native(id))),
        var == old(heap)@.next(),
        final(heap).wf(),
        final(heap)@.extends(old(heap)@),
{
    heap.allocate(JsValue::Function(JsFunc::Native(id)))
}

/// A new cell that holds an array of the given cells, in their order.
pub fn new_array(heap: &mut Heap, items: Vec<JsVar>) -> (var: JsVar)
    requires
        old(heap).wf(),
        old(heap)@.contains_all(items@),
    ensures
        final(heap)@ == old(heap)@.allocate(Value::Array(items@)),
        var == old(heap)@.next(),
        final(heap).wf(),
        final(heap)@.extends(old(heap)@),
{
    heap.allocate(JsValue::Array(items))
}

/// The place of the property with the key `key`, if there is one.
pub(crate) fn find(entries: &Vec<(String, JsVar)>, key: &String) -> (place: Option<usize>)
    requires
        distinct_keys(entries_view(entries@)),
    ensures
        place.is_some() == has_key(entries_view(entries@), key@),
        place matches Some(i) ==> i == key_position(entries_view(entries@), key@) && i
            < entries@.len(),
{
    let ghost model = entries_view(entries@);
    let mut i: usize = 0;
    while i < entries.len()
        invariant
            i <= entries@.len(),
            model == entries_view(entries@),
            distinct_keys(model),
            forall|k: int| 0 <= k < i ==> (#[trigger] model[k]).0 != key@,
        decreases entries@.len() - i,
    {
        if entries[i].0 == *key {
            proof {
                let p = key_position(model, key@);
                if p < i {
                    assert(model[p].0 != model[i as int].0);
                } else if i < p {
                    assert(model[i as int].0 != model[p].0);
                }
            }
            return Some(i);
        }
        i += 1;
    }
    None
}

/// Sets the property `key` to `var`: in place where the key is known, at the
/// end where it is new.
pub(crate) fn put(entries: &mut Vec<(String, JsVar)>, key: String, var: JsVar)
    requires
        distinct_keys(entries_view(old(entries)@)),
    ensures
        entries_view(final(entries)@) == upsert(entries_view(old(entries)@), key@, var),
        distinct_keys(entries_view(final(entries)@)),
{
    proof {
        lemma_upsert(entries_view(entries@), key@, var);
    }
    match find(entries, &key) {
        Some(i) => {
            entries[i] = (key, var);
        },
        None => {
            entries.push((key, var));
        },
    }
}

/// A new cell that holds an object with the given properties. Where a key
/// comes more than once, its last pair counts.
pub fn new_object(heap: &mut Heap, props: Vec<(String, JsVar)>) -> (var: JsVar)
    requires
        old(heap).wf(),
        forall|i: int| 0 <= i < props@.len() ==> old(heap)@.contains((#[trigger] props@[i]).1),
    ensures
        final(heap)@ == old(heap)@.allocate(Value::Object(collect(entries_view(props@)))),
        var == old(heap)@.next(),
        final(heap).wf(),
        final(heap)@.extends(old(heap)@),
{
    let ghost pairs = entries_view(props@);
    let ghost n = heap@.cells.len();
    let mut entries: Vec<(String, JsVar)> = Vec::new();
    let mut i: usize = 0;
    while i < props.len()
        invariant
            i <= props@.len(),
            pairs == entries_view(props@),
            entries_view(entries@) == collect(pairs.subrange(0, i as int)),
            Value::Object(entries_view(entries@)).fits(n),
            forall|k: int| 0 <= k < props@.len() ==> (#[trigger] props@[k]).1.slot < n,
        decreases props@.len() - i,
    {
        let key: String = props[i].0.clone();
        let item: JsVar = props[i].1;
        proof {
            assert(pairs.subrange(0, i + 1).drop_last() =~= pairs.subrange(0, i as int));
        }
        put(&mut entries, key, item);
        i += 1;
    }
    assert(pairs.subrange(0, i as int) =~= pairs);
    heap.allocate(JsValue::Object(entries))
}

} // verus!
