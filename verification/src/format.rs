//! Rendering values as text, and the log.
//!
//! The decimal text of a number comes from the host: the functions here take
//! the host's rendering as a function argument.
use vstd::prelude::*;
use crate::heap::{Heap, HeapModel, lemma_extends_itself};
use crate::value::{JsValue, JsVar, Value};

verus! {

/// The parts in their order, with the separator between each two.
pub open spec fn join(parts: Seq<Seq<char>>, separator: Seq<char>) -> Seq<char>
    decreases parts.len(),
{
    if parts.len() == 0 {
        Seq::empty()
    } else if parts.len() == 1 {
        parts[0]
    } else {
        join(parts.drop_last(), separator) + separator + parts.last()
    }
}

/// The cells that the properties hold, in the order of the properties.
pub open spec fn values_of(entries: Seq<(Seq<char>, JsVar)>) -> Seq<JsVar> {
    Seq::new(entries.len(), |i: int| entries[i].1)
}

/// Each property as its key, a colon, a space and the text of its value.
pub open spec fn labelled(entries: Seq<(Seq<char>, JsVar)>, parts: Seq<Seq<char>>) -> Seq<
    Seq<char>,
> {
    Seq::new(entries.len(), |i: int| entries[i].0 + ": "@ + parts[i])
}

/// The text of an array whose elements have the texts `parts`.
pub open spec fn bracketed(parts: Seq<Seq<char>>) -> Seq<char> {
    "["@ + join(parts, ", "@) + "]"@
}

/// The text of an object whose properties' values have the texts `parts`.
pub open spec fn braced(entries: Seq<(Seq<char>, JsVar)>, parts: Seq<Seq<char>>) -> Seq<char> {
    "{ "@ + join(labelled(entries, parts), ", "@) + " }"@
}

/// Whether the value in `var` can be rendered within `depth` levels: the
/// value itself is one level, and each element of an array or an object
/// needs one level less.
pub open spec fn renderable(heap: HeapModel, var: JsVar, depth: nat) -> bool
    decreases depth, 0nat,
{
    depth > 0 && match heap.value(var) {
        Value::Array(items) => all_renderable(heap, items, (depth - 1) as nat),
        Value::Object(entries) => all_renderable(heap, values_of(entries), (depth - 1) as nat),
        _ => true,
    }
}

/// Whether each of the cells can be rendered within `depth` levels.
pub open spec fn all_renderable(heap: HeapModel, vars: Seq<JsVar>, depth: nat) -> bool
    decreases depth, 1nat,
{
    forall|i: int| 0 <= i < vars.len() ==> renderable(heap, #[trigger] vars[i], depth)
}

/// Whether `out` is a rendering of the value in `var` within `depth`
/// levels. Undefined, null, booleans and functions have fixed texts; text
/// is rendered as itself; a number as a text that the host's rendering
/// returns for it; an array as its elements' renderings between brackets,
/// separated by a comma and a space; an object as its properties between
/// braces, each as key, colon, space and rendering, in the order in which
/// the object holds them.
pub open spec fn renders<T: Fn(u64) -> String>(
    heap: HeapModel,
    var: JsVar,
    depth: nat,
    text: T,
    out: Seq<char>,
) -> bool
    decreases depth, 0nat,
{
    depth > 0 && match heap.value(var) {
        Value::Undefined => out == "undefined"@,
        Value::Null => out == "null"@,
        Value::Number(bits) => number_renders(bits, text, out),
        Value::String(s) => out == s,
        Value::Boolean(b) => out == if b {
            "true"@
        } else {
            "false"@
        },
        Value::Function(_) => out == "[Function]"@,
        Value::Array(items) => exists|parts: Seq<Seq<char>>|
            out == #[trigger] bracketed(parts) && all_render(
                heap,
                items,
                (depth - 1) as nat,
                text,
                parts,
            ),
        Value::Object(entries) => exists|parts: Seq<Seq<char>>|
            out == #[trigger] braced(entries, parts) && all_render(
                heap,
                values_of(entries),
                (depth - 1) as nat,
                text,
                parts,
            ),
    }
}

/// Whether `out` is a text that the host's rendering returns for the number.
pub open spec fn number_renders<T: Fn(u64) -> String>(bits: u64, text: T, out: Seq<char>) -> bool {
    exists|s: String| #[trigger] text.ensures((bits,), s) && out == s@
}

/// Whether `parts` holds, for each of the cells in its order, a rendering
/// of its value within `depth` levels.
pub open spec fn all_render<T: Fn(u64) -> String>(
    heap: HeapModel,
    vars: Seq<JsVar>,
    depth: nat,
    text: T,
    parts: Seq<Seq<char>>,
) -> bool
    decreases depth, 1nat,
{
    parts.len() == vars.len() && forall|i: int|
        0 <= i < vars.len() ==> renders(heap, vars[i], depth, text, #[trigger] parts[i])
}

/// Joining one more part puts the separator before it, unless it is the first.
proof fn lemma_join_push(parts: Seq<Seq<char>>, separator: Seq<char>, part: Seq<char>)
    ensures
        join(parts.push(part), separator) == if parts.len() == 0 {
            part
        } else {
            join(parts, separator) + separator + part
        },
{
    assert(parts.push(part).drop_last() =~= parts);
}

/// The text of the value in `var`, within `depth` levels.
fn render<T: Fn(u64) -> String>(heap: &Heap, var: JsVar, depth: usize, text: &T) -> (r: Option<
    String,
>)
    requires
        heap.wf(),
        heap@.contains(var),
        forall|bits: u64| text.requires((bits,)),
    ensures
        r.is_some() == renderable(heap@, var, depth as nat),
        r matches Some(s) ==> renders(heap@, var, depth as nat, *text, s@),
    decreases depth,
{
    if depth == 0 {
        return None;
    }
    let ghost below = (depth - 1) as nat;
    match heap.value(var) {
        JsValue::Undefined => Some(String::from_str("undefined")),
        JsValue::Null => Some(String::from_str("null")),
        JsValue::Number(bits) => Some(text(*bits)),
        JsValue::String(s) => Some(s.clone()),
        JsValue::Boolean(b) => if *b {
            Some(String::from_str("true"))
        } else {
            Some(String::from_str("false"))
        },
        JsValue::Function(_) => Some(String::from_str("[Function]")),
        JsValue::Array(items) => {
            let mut out: String = String::from_str("[");
            let ghost mut parts: Seq<Seq<char>> = Seq::empty();
            let mut i: usize = 0;
            while i < items.len()
                invariant
                    i <= items@.len(),
                    heap.wf(),
                    depth > 0,
                    below == (depth - 1) as nat,
                    heap@.value(var) == Value::Array(items@),
                    heap@.contains_all(items@),
                    forall|bits: u64| text.requires((bits,)),
                    parts.len() == i,
                    out@ == "["@ + join(parts, ", "@),
                    forall|k: int| 0 <= k < i ==> renderable(heap@, #[trigger] items@[k], below),
                    forall|k: int|
                        0 <= k < i ==> renders(heap@, items@[k], below, *text, #[trigger] parts[k]),
                decreases items@.len() - i,
            {
                match render(heap, items[i], depth - 1, text) {
                    None => {
                        return None;
                    },
                    Some(piece) => {
                        if i > 0 {
                            out.append(", ");
                        }
                        out.append(piece.as_str());
                        proof {
                            lemma_join_push(parts, ", "@, piece@);
                            parts = parts.push(piece@);
                        }
                    },
                }
                i += 1;
            }
            out.append("]");
            assert(out@ == bracketed(parts));
            Some(out)
        },
        JsValue::Object(entries) => {
            let mut out: String = String::from_str("{ ");
            let ghost mut parts: Seq<Seq<char>> = Seq::empty();
            let ghost model = heap@.value(var)->Object_0;
            let ghost vars = values_of(model);
            let mut i: usize = 0;
            while i < entries.len()
                invariant
                    i <= entries@.len(),
                    heap.wf(),
                    depth > 0,
                    below == (depth - 1) as nat,
                    heap@.value(var) == Value::Object(model),
                    vars == values_of(model),
                    model.len() == entries@.len(),
                    forall|k: int|
                        0 <= k < entries@.len() ==> (#[trigger] model[k]) == (
                            entries@[k].0@,
                            entries@[k].1,
                        ),
                    forall|k: int| 0 <= k < model.len() ==> heap@.contains((#[trigger] model[k]).1),
                    forall|bits: u64| text.requires((bits,)),
                    parts.len() == i,
                    out@ == "{ "@ + join(labelled(model.subrange(0, i as int), parts), ", "@),
                    forall|k: int| 0 <= k < i ==> renderable(heap@, #[trigger] vars[k], below),
                    forall|k: int|
                        0 <= k < i ==> renders(heap@, vars[k], below, *text, #[trigger] parts[k]),
                decreases entries@.len() - i,
            {
                assert(vars[i as int] == entries@[i as int].1);
                match render(heap, entries[i].1, depth - 1, text) {
                    None => {
                        return None;
                    },
                    Some(piece) => {
                        if i > 0 {
                            out.append(", ");
                        }
                        out.append(entries[i].0.as_str());
                        out.append(": ");
                        out.append(piece.as_str());
                        proof {
                            let before = labelled(model.subrange(0, i as int), parts);
                            let part = model[i as int].0 + ": "@ + piece@;
                            lemma_join_push(before, ", "@, part);
                            assert(labelled(model.subrange(0, i + 1), parts.push(piece@))
                                =~= before.push(part));
                            parts = parts.push(piece@);
                        }
                    },
                }
                i += 1;
            }
            assert(model.subrange(0, i as int) =~= model);
            out.append(" }");
            assert(out@ == braced(model, parts));
            Some(out)
        },
    }
}

/// The text of the value in `var`: see [`renders`], with as many levels as
/// the heap has cells. That is enough for every value that does not hold
/// itself, directly or through other containers. The result is `None`
/// exactly when the nesting under `var` is deeper than that.
pub fn format<T: Fn(u64) -> String>(heap: &Heap, var: JsVar, text: &T) -> (r: Option<String>)
    requires
        heap.wf(),
        heap@.contains(var),
        forall|bits: u64| text.requires((bits,)),
    ensures
        r.is_some() == renderable(heap@, var, heap@.cells.len()),
        r matches Some(s) ==> renders(heap@, var, heap@.cells.len(), *text, s@),
{
    render(heap, var, heap.len(), text)
}

/// The line that the log writes for arguments with the texts `parts`.
pub open spec fn spaced(parts: Seq<Seq<char>>) -> Seq<char> {
    join(parts, " "@)
}

/// Whether `after` is the heap `before` with one more line of output: the
/// renderings of the arguments, in their order, with one space between
/// each two.
pub open spec fn logged<T: Fn(u64) -> String>(
    before: HeapModel,
    args: Seq<JsVar>,
    text: T,
    after: HeapModel,
) -> bool {
    exists|parts: Seq<Seq<char>>|
        after == before.emit(#[trigger] spaced(parts)) && all_render(
            before,
            args,
            before.cells.len(),
            text,
            parts,
        )
}

/// Writes one line to the output: see [`logged`]. Where one of the
/// arguments cannot be rendered (see [`format`]), nothing is written and
/// the result is `false`.
pub fn log<T: Fn(u64) -> String>(heap: &mut Heap, args: &[JsVar], text: &T) -> (r: bool)
    requires
        old(heap).wf(),
        old(heap)@.contains_all(args@),
        forall|bits: u64| text.requires((bits,)),
    ensures
        r == all_renderable(old(heap)@, args@, old(heap)@.cells.len()),
        r ==> logged(old(heap)@, args@, *text, final(heap)@),
        !r ==> final(heap)@ == old(heap)@,
        final(heap).wf(),
        final(heap)@.extends(old(heap)@),
{
    proof {
        lemma_extends_itself(heap@);
    }
    let mut line: String = String::new();
    let ghost mut parts: Seq<Seq<char>> = Seq::empty();
    let depth: usize = heap.len();
    let mut i: usize = 0;
    while i < args.len()
        invariant
            i <= args@.len(),
            heap.wf(),
            heap@ == old(heap)@,
            heap@.extends(old(heap)@),
            depth == heap@.cells.len(),
            heap@.contains_all(args@),
            forall|bits: u64| text.requires((bits,)),
            parts.len() == i,
            line@ == spaced(parts),
            forall|k: int| 0 <= k < i ==> renderable(heap@, #[trigger] args@[k], depth as nat),
            forall|k: int|
                0 <= k < i ==> renders(heap@, args@[k], depth as nat, *text, #[trigger] parts[k]),
        decreases args@.len() - i,
    {
        match render(heap, args[i], depth, text) {
            None => {
                return false;
            },
            Some(piece) => {
                if i > 0 {
                    line.append(" ");
                }
                line.append(piece.as_str());
                proof {
                    lemma_join_push(parts, " "@, piece@);
                    parts = parts.push(piece@);
                }
            },
        }
        i += 1;
    }
    heap.emit(line);
    true
}

} // verus!
