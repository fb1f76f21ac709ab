//! Laws that relate the operations to each other.
use vstd::prelude::*;
use vstd::set_lib::{lemma_int_range, lemma_len_subset, set_int_range};
use crate::access::{Found, read, written};
use crate::format::{renderable, values_of};
use crate::heap::HeapModel;
use crate::number::from_nat;
use crate::operators::equal;
use crate::text::parse_index;
use crate::value::{JsVar, Value, distinct_keys, lemma_upsert};

verus! {

/// Whether two values are of one kind.
pub open spec fn same_kind(a: Value, b: Value) -> bool {
    match (a, b) {
        (Value::Undefined, Value::Undefined) => true,
        (Value::Null, Value::Null) => true,
        (Value::Number(_), Value::Number(_)) => true,
        (Value::String(_), Value::String(_)) => true,
        (Value::Boolean(_), Value::Boolean(_)) => true,
        (Value::Array(_), Value::Array(_)) => true,
        (Value::Object(_), Value::Object(_)) => true,
        (Value::Function(_), Value::Function(_)) => true,
        _ => false,
    }
}

/// Values of different kinds are never equal: equality coerces nothing.
pub proof fn law_cross_kind_unequal(a: Value, b: Value)
    requires
        !same_kind(a, b),
    ensures
        !equal(a, b),
{
}

/// Replacing the content of `dest` by that of `src` keeps the identity of
/// every cell: whoever holds the handle `dest` reads the content of `src`
/// afterwards, and a cell with any other handle holds what it held, even one
/// that held an equal value before.
pub proof fn law_replace_keeps_identity(before: HeapModel, dest: JsVar, src: JsVar, other: JsVar)
    requires
        before.contains(dest),
        before.contains(src),
        before.contains(other),
    ensures
        ({
            let after = before.with_value(dest, before.value(src));
            &&& other == dest ==> after.value(other) == before.value(src)
            &&& other != dest ==> after.value(other) == before.value(other)
            &&& after.views(other) == before.views(other)
            &&& after.cells.len() == before.cells.len()
        }),
{
}

/// No step of the runtime changes a cell on which a view is held: where one
/// heap extends another, such a cell holds in the later heap what it held
/// in the earlier one, with as many views on it.
pub proof fn law_viewed_cell_is_kept(before: HeapModel, after: HeapModel, var: JsVar)
    requires
        after.extends(before),
        before.contains(var),
        before.views(var) > 0,
    ensures
        after.contains(var),
        after.value(var) == before.value(var),
        after.views(var) == before.views(var),
{
    assert(after.cells[var.slot as int].views == before.cells[var.slot as int].views);
}

/// The key "length" names no index.
pub proof fn law_length_is_no_index()
    ensures
        parse_index("length"@) is None,
{
    reveal_strlit("length");
}

/// Setting an array at the index equal to its length appends the cell:
/// the array has one element more, the key reads the cell back, and the
/// length read afterwards is the new count.
pub proof fn law_set_at_length_appends(items: Seq<JsVar>, key: Seq<char>, var: JsVar)
    requires
        parse_index(key) == Some(items.len() as usize),
        items.len() < usize::MAX,
    ensures
        written(Value::Array(items), key, var) == Value::Array(items.push(var)),
        read(written(Value::Array(items), key, var), key) == Found::Existing(var),
        read(written(Value::Array(items), key, var), "length"@) == Found::Fresh(
            Value::Number(from_nat(items.len() + 1)),
        ),
{
    law_length_is_no_index();
}

/// Setting an array at an index below its length overwrites that element
/// and keeps the length.
pub proof fn law_set_below_length_overwrites(items: Seq<JsVar>, key: Seq<char>, var: JsVar)
    requires
        parse_index(key) matches Some(i) && i < items.len(),
    ensures
        written(Value::Array(items), key, var) == Value::Array(
            items.update(parse_index(key)->0 as int, var),
        ),
        read(written(Value::Array(items), key, var), key) == Found::Existing(var),
        read(written(Value::Array(items), key, var), "length"@) == Found::Fresh(
            Value::Number(from_nat(items.len())),
        ),
{
    law_length_is_no_index();
}

/// Setting an array at an index above its length, or at a key that names
/// no index, changes nothing.
pub proof fn law_set_elsewhere_keeps_array(items: Seq<JsVar>, key: Seq<char>, var: JsVar)
    requires
        parse_index(key) matches Some(i) ==> i > items.len(),
    ensures
        written(Value::Array(items), key, var) == Value::Array(items),
{
}

/// Setting a property of an object makes the key read the cell back and
/// leaves what every other key reads.
pub proof fn law_object_set_then_get(
    entries: Seq<(Seq<char>, JsVar)>,
    key: Seq<char>,
    var: JsVar,
    other: Seq<char>,
)
    requires
        distinct_keys(entries),
    ensures
        read(written(Value::Object(entries), key, var), key) == Found::Existing(var),
        other != key ==> read(written(Value::Object(entries), key, var), other) == read(
            Value::Object(entries),
            other,
        ),
{
    lemma_upsert(entries, key, var);
}

/// Setting a key of what is neither an object nor an array changes nothing,
/// and reading any key of it gives the undefined value.
pub proof fn law_no_container(v: Value, key: Seq<char>, var: JsVar)
    requires
        !(v is Object),
        !(v is Array),
    ensures
        written(v, key, var) == v,
        read(v, key) == Found::Fresh(Value::Undefined),
{
}

/// Whether the container in `a` holds the cell `b`, as an element or as the
/// value of a property.
pub open spec fn holds(heap: HeapModel, a: JsVar, b: JsVar) -> bool {
    match heap.value(a) {
        Value::Array(items) => items.contains(b),
        Value::Object(entries) => values_of(entries).contains(b),
        _ => false,
    }
}

/// Whether each cell of the list holds the next one.
pub open spec fn is_chain(heap: HeapModel, cells: Seq<JsVar>) -> bool {
    forall|i: int| 0 <= i < cells.len() - 1 ==> holds(heap, #[trigger] cells[i], cells[i + 1])
}

/// Whether some cell stands twice in the list.
pub open spec fn repeats(cells: Seq<JsVar>) -> bool {
    exists|i: int, j: int| 0 <= i < j < cells.len() && cells[i] == cells[j]
}

/// From a cell that cannot be rendered within `depth` levels a chain of
/// `depth + 1` cells starts.
proof fn lemma_unrenderable_chain(heap: HeapModel, var: JsVar, depth: nat) -> (chain: Seq<JsVar>)
    requires
        heap.wf(),
        heap.contains(var),
        !renderable(heap, var, depth),
    ensures
        chain.len() == depth + 1,
        chain[0] == var,
        is_chain(heap, chain),
        heap.contains_all(chain),
    decreases depth,
{
    if depth == 0 {
        seq![var]
    } else {
        let below = (depth - 1) as nat;
        let vars = match heap.value(var) {
            Value::Array(items) => items,
            Value::Object(entries) => values_of(entries),
            _ => Seq::empty(),
        };
        let i = choose|i: int| 0 <= i < vars.len() && !renderable(heap, #[trigger] vars[i], below);
        let child = vars[i];
        assert(heap.contains(child)) by {
        }
        let rest = lemma_unrenderable_chain(heap, child, below);
        let chain = seq![var] + rest;
        assert forall|k: int| 0 <= k < chain.len() - 1 implies holds(
            heap,
            #[trigger] chain[k],
            chain[k + 1],
        ) by {
        }
        assert forall|k: int| 0 <= k < chain.len() implies heap.contains(#[trigger] chain[k]) by {
        }
        chain
    }
}

/// Among more cells than the heap has, one cell stands twice.
proof fn lemma_too_many_cells_repeat(heap: HeapModel, cells: Seq<JsVar>)
    requires
        heap.contains_all(cells),
        cells.len() > heap.cells.len(),
    ensures
        repeats(cells),
{
    let slots = cells.map_values(|v: JsVar| v.slot as int);
    let n = heap.cells.len() as int;
    if slots.no_duplicates() {
        slots.unique_seq_to_set();
        lemma_int_range(0, n);
        assert forall|x: int| slots.to_set().contains(x) implies set_int_range(0, n).contains(
            x,
        ) by {
        }
        lemma_len_subset(slots.to_set(), set_int_range(0, n));
    } else {
        let (i, j) = choose|i: int, j: int|
            0 <= i < slots.len() && 0 <= j < slots.len() && i != j && slots[i] == slots[j];
    }
}

/// Only what holds itself cannot be rendered. From a cell that cannot be
/// rendered within as many levels as the heap has cells, a chain of cells
/// starts in which each holds the next and some cell comes twice: that cell
/// holds itself, directly or through the cells between.
pub proof fn law_unrenderable_holds_itself(heap: HeapModel, var: JsVar) -> (chain: Seq<JsVar>)
    requires
        heap.wf(),
        heap.contains(var),
        !renderable(heap, var, heap.cells.len()),
    ensures
        chain.len() > 0,
        chain[0] == var,
        is_chain(heap, chain),
        repeats(chain),
{
    let chain = lemma_unrenderable_chain(heap, var, heap.cells.len());
    lemma_too_many_cells_repeat(heap, chain);
    chain
}

} // verus!
