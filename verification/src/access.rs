//! Keyed reading and writing of objects and arrays, and the replacing of a
//! cell's content.
use vstd::prelude::*;
use crate::create::{find, put};
use crate::heap::{Heap, lemma_extends_itself};
use crate::number::{from_index, from_nat};
use crate::text::{index_from_key, parse_index, same_text};
use crate::value::{JsValue, JsVar, Value, lookup, upsert};

verus! {

/// The one fault of the runtime: an attempt to change a cell while a
/// traversal or a running call holds a view on it.
#[derive(Clone, Copy, PartialEq, Eq, Debug, Structural)]
pub enum Fault {
    ReentrancyConflict,
}

/// What reading a key gives: a cell that the container holds, or a value
/// for which a new cell is made.
pub ghost enum Found {
    Existing(JsVar),
    Fresh(Value),
}

/// What reading `key` from a container gives. An object gives the cell
/// stored under the key. An array gives its length for the key "length",
/// and for a key that names an index below the length the cell at that
/// index. Everything else gives the undefined value.
pub open spec fn read(container: Value, key: Seq<char>) -> Found {
    match container {
        Value::Object(entries) => match lookup(entries, key) {
            Some(var) => Found::Existing(var),
            None => Found::Fresh(Value::Undefined),
        },
        Value::Array(items) => if key == "length"@ {
            Found::Fresh(Value::Number(from_nat(items.len())))
        } else {
            match parse_index(key) {
                Some(i) => if i < items.len() {
                    Found::Existing(items[i as int])
                } else {
                    Found::Fresh(Value::Undefined)
                },
                None => Found::Fresh(Value::Undefined),
            }
        },
        _ => Found::Fresh(Value::Undefined),
    }
}

/// The container after `key` has been set to `var`. An object gets the
/// property, new or overwritten. An array is overwritten at an index below
/// its length and grows by one at the index equal to its length. Everything
/// else stays as it is: an array at any other key, and what is no container.
pub open spec fn written(container: Value, key: Seq<char>, var: JsVar) -> Value {
    match container {
        Value::Object(entries) => Value::Object(upsert(entries, key, var)),
        Value::Array(items) => match parse_index(key) {
            Some(i) => if i < items.len() {
                Value::Array(items.update(i as int, var))
            } else if i == items.len() {
                Value::Array(items.push(var))
            } else {
                container
            },
            None => container,
        },
        _ => container,
    }
}

/// What a look into a container found.
enum Lookup {
    Existing(JsVar),
    Length(usize),
    Missing,
}

/// Looks `key` up without touching the heap.
fn look(heap: &Heap, obj: JsVar, key: &str) -> (r: Lookup)
    requires
        heap.wf(),
        heap@.contains(obj),
    ensures
        match read(heap@.value(obj), key@) {
            Found::Existing(var) => r == Lookup::Existing(var) && heap@.contains(var),
            Found::Fresh(Value::Undefined) => r == Lookup::Missing,
            Found::Fresh(Value::Number(bits)) => r matches Lookup::Length(n) && bits == from_nat(
                n as nat,
            ),
            Found::Fresh(_) => false,
        },
{
    match heap.value(obj) {
        JsValue::Object(entries) => {
            let wanted: String = String::from_str(key);
            match find(entries, &wanted) {
                Some(i) => Lookup::Existing(entries[i].1),
                None => Lookup::Missing,
            }
        },
        JsValue::Array(items) => {
            if same_text(key, "length") {
                Lookup::Length(items.len())
            } else {
                match index_from_key(key) {
                    Some(i) => if i < items.len() {
                        Lookup::Existing(items[i])
                    } else {
                        Lookup::Missing
                    },
                    None => Lookup::Missing,
                }
            }
        },
        _ => Lookup::Missing,
    }
}

/// Reads `key` from the container in `obj`: see [`read`]. A cell that the
/// container holds is returned as it is, so that it stays shared; the
/// heap is then unchanged. The length of an array and the undefined value
/// come in a new cell.
pub fn get(heap: &mut Heap, obj: JsVar, key: &str) -> (r: JsVar)
    requires
        old(heap).wf(),
        old(heap)@.contains(obj),
    ensures
        match read(old(heap)@.value(obj), key@) {
            Found::Existing(var) => r == var && final(heap)@ == old(heap)@,
            Found::Fresh(value) => r == old(heap)@.next() && final(heap)@ == old(heap)@.allocate(
                value,
            ),
        },
        final(heap)@.contains(r),
        final(heap).wf(),
        final(heap)@.extends(old(heap)@),
{
    proof {
        lemma_extends_itself(heap@);
    }
    match look(heap, obj, key) {
        Lookup::Existing(var) => var,
        Lookup::Length(n) => heap.allocate(JsValue::Number(from_index(n))),
        Lookup::Missing => heap.allocate(JsValue::Undefined),
    }
}

/// The container `held` after `key` has been set to `var`.
fn write(held: JsValue, key: &str, var: JsVar, Ghost(n): Ghost<nat>) -> (r: JsValue)
    requires
        held@.fits(n),
        var.slot < n,
    ensures
        r@ == written(held@, key@, var),
        r@.fits(n),
{
    match held {
        JsValue::Object(entries) => {
            let mut entries = entries;
            put(&mut entries, String::from_str(key), var);
            JsValue::Object(entries)
        },
        JsValue::Array(items) => {
            let mut items = items;
            match index_from_key(key) {
                Some(i) => {
                    if i < items.len() {
                        items[i] = var;
                    } else if i == items.len() {
                        items.push(var);
                    }
                },
                None => {},
            }
            JsValue::Array(items)
        },
        other => other,
    }
}

/// Sets `key` of the container in `obj` to the cell `val`: see [`written`].
/// The container holds the cell itself afterwards, not a copy of its value.
/// Fails, and changes nothing, exactly when a view is held on `obj`.
pub fn set(heap: &mut Heap, obj: JsVar, key: &str, val: JsVar) -> (r: Result<JsVar, Fault>)
    requires
        old(heap).wf(),
        old(heap)@.contains(obj),
        old(heap)@.contains(val),
    ensures
        old(heap)@.views(obj) > 0 ==> r == Err::<JsVar, Fault>(Fault::ReentrancyConflict)
            && final(heap)@ == old(heap)@,
        old(heap)@.views(obj) == 0 ==> r == Ok::<JsVar, Fault>(val) && final(heap)@ == old(
            heap,
        )@.with_value(obj, written(old(heap)@.value(obj), key@, val)),
        final(heap).wf(),
        final(heap)@.extends(old(heap)@),
{
    proof {
        lemma_extends_itself(heap@);
    }
    if heap.is_viewed(obj) {
        return Err(Fault::ReentrancyConflict);
    }
    let ghost n = heap@.cells.len();
    let held: JsValue = heap.exchange(obj, JsValue::Undefined);
    let updated: JsValue = write(held, key, val, Ghost(n));
    heap.exchange(obj, updated);
    assert(heap@.cells =~= old(heap)@.with_value(
        obj,
        written(old(heap)@.value(obj), key@, val),
    ).cells);
    Ok(val)
}

/// Puts a copy of the content of `src` into the cell `dest`. The cell keeps
/// its identity: whoever holds `dest` reads the new content, and no other
/// cell changes. Fails, and changes nothing, exactly when a view is held on
/// `dest`.
pub fn replace(heap: &mut Heap, dest: JsVar, src: JsVar) -> (r: Result<JsVar, Fault>)
    requires
        old(heap).wf(),
        old(heap)@.contains(dest),
        old(heap)@.contains(src),
    ensures
        old(heap)@.views(dest) > 0 ==> r == Err::<JsVar, Fault>(Fault::ReentrancyConflict)
            && final(heap)@ == old(heap)@,
        old(heap)@.views(dest) == 0 ==> r == Ok::<JsVar, Fault>(dest) && final(heap)@ == old(
            heap,
        )@.with_value(dest, old(heap)@.value(src)),
        final(heap).wf(),
        final(heap)@.extends(old(heap)@),
{
    proof {
        lemma_extends_itself(heap@);
    }
    if heap.is_viewed(dest) {
        return Err(Fault::ReentrancyConflict);
    }
    let content: JsValue = heap.value(src).clone();
    heap.exchange(dest, content);
    Ok(dest)
}

} // verus!
