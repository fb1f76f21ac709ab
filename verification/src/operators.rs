//! The operators: truthiness, arithmetic, comparison, equality, the logical
//! connectives, `typeof` and fixed-point text.
//!
//! Arithmetic on two numbers and the decimal text of a number come from the
//! host: the operators that need them take the host's routine as a function
//! argument and say, in terms of what that routine returned, what they store.
use vstd::prelude::*;
use crate::heap::Heap;
use crate::number::{at_most, index_of, is_nan, is_zero, less, same, to_index};
use crate::number::{spec_at_most, spec_is_nan, spec_is_zero, spec_less, spec_same};
use crate::value::{JsValue, JsVar, Value};

verus! {

/// Whether a value counts as true in a condition: a boolean as itself, a
/// number unless it is zero or NaN, text unless it is empty, null and
/// undefined never, and every array, object and function always.
pub open spec fn truthy(v: Value) -> bool {
    match v {
        Value::Boolean(b) => b,
        Value::Number(bits) => !spec_is_zero(bits) && !spec_is_nan(bits),
        Value::String(s) => s.len() > 0,
        Value::Null => false,
        Value::Undefined => false,
        Value::Array(_) => true,
        Value::Object(_) => true,
        Value::Function(_) => true,
    }
}

/// Whether both values are numbers and the first is below the second.
pub open spec fn below(a: Value, b: Value) -> bool {
    a matches Value::Number(x) && b matches Value::Number(y) && spec_less(x, y)
}

/// Whether both values are numbers and the first is not above the second.
pub open spec fn not_above(a: Value, b: Value) -> bool {
    a matches Value::Number(x) && b matches Value::Number(y) && spec_at_most(x, y)
}

/// Equality of two values: within one kind, for numbers, booleans, text,
/// null and undefined; never across kinds, and never for arrays, objects
/// and functions.
pub open spec fn equal(a: Value, b: Value) -> bool {
    match (a, b) {
        (Value::Number(x), Value::Number(y)) => spec_same(x, y),
        (Value::Boolean(x), Value::Boolean(y)) => x == y,
        (Value::String(x), Value::String(y)) => x == y,
        (Value::Null, Value::Null) => true,
        (Value::Undefined, Value::Undefined) => true,
        _ => false,
    }
}

/// The name of a value's type. Null, arrays and objects are all "object".
pub open spec fn kind_name(v: Value) -> Seq<char> {
    match v {
        Value::Undefined => "undefined"@,
        Value::Null => "object"@,
        Value::Number(_) => "number"@,
        Value::String(_) => "string"@,
        Value::Boolean(_) => "boolean"@,
        Value::Array(_) => "object"@,
        Value::Object(_) => "object"@,
        Value::Function(_) => "function"@,
    }
}

/// Whether `out` is what an arithmetic operator stores for `a` and `b`: for
/// two numbers a number that the host's operation returns for them, and the
/// undefined value for anything else.
pub open spec fn is_arithmetic<F: Fn(u64, u64) -> u64>(a: Value, b: Value, op: F, out: Value)
    -> bool {
    match (a, b) {
        (Value::Number(x), Value::Number(y)) => out matches Value::Number(z) && op.ensures(
            (x, y),
            z,
        ),
        _ => out == Value::Undefined,
    }
}

/// Whether the host's operation can be called for `a` and `b`.
pub open spec fn arithmetic_ready<F: Fn(u64, u64) -> u64>(a: Value, b: Value, op: F) -> bool {
    match (a, b) {
        (Value::Number(x), Value::Number(y)) => op.requires((x, y)),
        _ => true,
    }
}

/// Whether `out` is what addition stores for `a` and `b`: for two numbers a
/// number that the host's addition returns for them; for text and text, or
/// text and a number in either order, the two joined, the number as a text
/// that the host's rendering returns for it; the undefined value otherwise.
pub open spec fn is_sum<S: Fn(u64, u64) -> u64, T: Fn(u64) -> String>(
    a: Value,
    b: Value,
    sum: S,
    text: T,
    out: Value,
) -> bool {
    match (a, b) {
        (Value::Number(x), Value::Number(y)) => out matches Value::Number(z) && sum.ensures(
            (x, y),
            z,
        ),
        (Value::String(s), Value::String(t)) => out == Value::String(s + t),
        (Value::String(s), Value::Number(y)) => exists|t: String| #[trigger]
            text.ensures((y,), t) && out == Value::String(s + t@),
        (Value::Number(x), Value::String(t)) => exists|s: String| #[trigger]
            text.ensures((x,), s) && out == Value::String(s@ + t),
        _ => out == Value::Undefined,
    }
}

/// Whether the host's routines can be called as addition needs them.
pub open spec fn sum_ready<S: Fn(u64, u64) -> u64, T: Fn(u64) -> String>(
    a: Value,
    b: Value,
    sum: S,
    text: T,
) -> bool {
    match (a, b) {
        (Value::Number(x), Value::Number(y)) => sum.requires((x, y)),
        (Value::String(_), Value::Number(y)) => text.requires((y,)),
        (Value::Number(x), Value::String(_)) => text.requires((x,)),
        _ => true,
    }
}

/// The count of fractional digits that a value asks for: the index that a
/// number stands for, and zero for anything that is not a number.
pub open spec fn digit_count(digits: Value) -> usize {
    match digits {
        Value::Number(bits) => to_index(bits),
        _ => 0,
    }
}

/// Whether `out` is the fixed-point text of `val`: for a number a text that
/// the host's routine returns for it and the digit count, and "NaN" for
/// anything else.
pub open spec fn is_fixed<F: Fn(u64, usize) -> String>(
    val: Value,
    digits: Value,
    fixed: F,
    out: Value,
) -> bool {
    match val {
        Value::Number(bits) => exists|t: String| #[trigger]
            fixed.ensures((bits, digit_count(digits)), t) && out == Value::String(t@),
        _ => out == Value::String("NaN"@),
    }
}

/// Whether the host's routine can be called as `to_fixed` needs it.
pub open spec fn fixed_ready<F: Fn(u64, usize) -> String>(val: Value, digits: Value, fixed: F)
    -> bool {
    match val {
        Value::Number(bits) => fixed.requires((bits, digit_count(digits))),
        _ => true,
    }
}

/// Whether the value in a cell counts as true.
pub fn is_truthy(heap: &Heap, val: JsVar) -> (r: bool)
    requires
        heap@.contains(val),
    ensures
        r == truthy(heap@.value(val)),
{
    match heap.value(val) {
        JsValue::Boolean(b) => *b,
        JsValue::Number(bits) => !is_zero(*bits) && !is_nan(*bits),
        JsValue::String(s) => !s.as_str().is_empty(),
        JsValue::Null => false,
        JsValue::Undefined => false,
        JsValue::Array(_) => true,
        JsValue::Object(_) => true,
        JsValue::Function(_) => true,
    }
}

/// What an arithmetic operator stores: the host's result for two numbers,
/// the undefined value otherwise.
fn arithmetic<F: Fn(u64, u64) -> u64>(heap: &mut Heap, a: JsVar, b: JsVar, op: &F) -> (r: JsVar)
    requires
        old(heap).wf(),
        old(heap)@.contains(a),
        old(heap)@.contains(b),
        arithmetic_ready(old(heap)@.value(a), old(heap)@.value(b), *op),
    ensures
        r == old(heap)@.next(),
        final(heap)@ == old(heap)@.allocate(final(heap)@.value(r)),
        final(heap)@.extends(old(heap)@),
        is_arithmetic(old(heap)@.value(a), old(heap)@.value(b), *op, final(heap)@.value(r)),
        final(heap).wf(),
{
    let result: JsValue = match heap.value(a) {
        JsValue::Number(x) => match heap.value(b) {
            JsValue::Number(y) => JsValue::Number(op(*x, *y)),
            _ => JsValue::Undefined,
        },
        _ => JsValue::Undefined,
    };
    let r = heap.allocate(result);
    r
}

/// `a + b`. Two numbers give the host's sum. Text with text, and text with
/// a number in either order, give the two joined, the number in the host's
/// decimal text. Every other pair gives the undefined value.
pub fn add<S: Fn(u64, u64) -> u64, T: Fn(u64) -> String>(
    heap: &mut Heap,
    a: JsVar,
    b: JsVar,
    sum: &S,
    text: &T,
) -> (r: JsVar)
    requires
        old(heap).wf(),
        old(heap)@.contains(a),
        old(heap)@.contains(b),
        sum_ready(old(heap)@.value(a), old(heap)@.value(b), *sum, *text),
    ensures
        r == old(heap)@.next(),
        final(heap)@ == old(heap)@.allocate(final(heap)@.value(r)),
        final(heap)@.extends(old(heap)@),
        is_sum(old(heap)@.value(a), old(heap)@.value(b), *sum, *text, final(heap)@.value(r)),
        final(heap).wf(),
{
    let result: JsValue = match heap.value(a) {
        JsValue::Number(x) => match heap.value(b) {
            JsValue::Number(y) => JsValue::Number(sum(*x, *y)),
            JsValue::String(t) => {
                let mut joined: String = text(*x);
                joined.append(t.as_str());
                JsValue::String(joined)
            },
            _ => JsValue::Undefined,
        },
        JsValue::String(s) => match heap.value(b) {
            JsValue::Number(y) => {
                let mut joined: String = s.clone();
                let rendered: String = text(*y);
                joined.append(rendered.as_str());
                JsValue::String(joined)
            },
            JsValue::String(t) => {
                let mut joined: String = s.clone();
                joined.append(t.as_str());
                JsValue::String(joined)
            },
            _ => JsValue::Undefined,
        },
        _ => JsValue::Undefined,
    };
    let r = heap.allocate(result);
    r
}

/// `a - b`: the host's difference of two numbers, the undefined value otherwise.
pub fn sub<F: Fn(u64, u64) -> u64>(heap: &mut Heap, a: JsVar, b: JsVar, difference: &F) -> (r:
    JsVar)
    requires
        old(heap).wf(),
        old(heap)@.contains(a),
        old(heap)@.contains(b),
        arithmetic_ready(old(heap)@.value(a), old(heap)@.value(b), *difference),
    ensures
        r == old(heap)@.next(),
        final(heap)@ == old(heap)@.allocate(final(heap)@.value(r)),
        final(heap)@.extends(old(heap)@),
        is_arithmetic(old(heap)@.value(a), old(heap)@.value(b), *difference, final(heap)@.value(r)),
        final(heap).wf(),
{
    arithmetic(heap, a, b, difference)
}

/// `a * b`: the host's product of two numbers, the undefined value otherwise.
pub fn mul<F: Fn(u64, u64) -> u64>(heap: &mut Heap, a: JsVar, b: JsVar, product: &F) -> (r: JsVar)
    requires
        old(heap).wf(),
        old(heap)@.contains(a),
        old(heap)@.contains(b),
        arithmetic_ready(old(heap)@.value(a), old(heap)@.value(b), *product),
    ensures
        r == old(heap)@.next(),
        final(heap)@ == old(heap)@.allocate(final(heap)@.value(r)),
        final(heap)@.extends(old(heap)@),
        is_arithmetic(old(heap)@.value(a), old(heap)@.value(b), *product, final(heap)@.value(r)),
        final(heap).wf(),
{
    arithmetic(heap, a, b, product)
}

/// `a / b`: the host's quotient of two numbers, the undefined value otherwise.
pub fn div<F: Fn(u64, u64) -> u64>(heap: &mut Heap, a: JsVar, b: JsVar, quotient: &F) -> (r: JsVar)
    requires
        old(heap).wf(),
        old(heap)@.contains(a),
        old(heap)@.contains(b),
        arithmetic_ready(old(heap)@.value(a), old(heap)@.value(b), *quotient),
    ensures
        r == old(heap)@.next(),
        final(heap)@ == old(heap)@.allocate(final(heap)@.value(r)),
        final(heap)@.extends(old(heap)@),
        is_arithmetic(old(heap)@.value(a), old(heap)@.value(b), *quotient, final(heap)@.value(r)),
        final(heap).wf(),
{
    arithmetic(heap, a, b, quotient)
}

/// `a > b`: true for two numbers of which the first is the greater, false
/// for every other pair.
pub fn gt(heap: &Heap, a: JsVar, b: JsVar) -> (r: bool)
    requires
        heap@.contains(a),
        heap@.contains(b),
    ensures
        r == below(heap@.value(b), heap@.value(a)),
{
    match heap.value(a) {
        JsValue::Number(x) => match heap.value(b) {
            JsValue::Number(y) => less(*y, *x),
            _ => false,
        },
        _ => false,
    }
}

/// `a >= b`: true for two numbers of which the first is not the smaller.
pub fn gte(heap: &Heap, a: JsVar, b: JsVar) -> (r: bool)
    requires
        heap@.contains(a),
        heap@.contains(b),
    ensures
        r == not_above(heap@.value(b), heap@.value(a)),
{
    match heap.value(a) {
        JsValue::Number(x) => match heap.value(b) {
            JsValue::Number(y) => at_most(*y, *x),
            _ => false,
        },
        _ => false,
    }
}

/// `a < b`: true for two numbers of which the first is the smaller.
pub fn lt(heap: &Heap, a: JsVar, b: JsVar) -> (r: bool)
    requires
        heap@.contains(a),
        heap@.contains(b),
    ensures
        r == below(heap@.value(a), heap@.value(b)),
{
    match heap.value(a) {
        JsValue::Number(x) => match heap.value(b) {
            JsValue::Number(y) => less(*x, *y),
            _ => false,
        },
        _ => false,
    }
}

/// `a <= b`: true for two numbers of which the first is not the greater.
pub fn lte(heap: &Heap, a: JsVar, b: JsVar) -> (r: bool)
    requires
        heap@.contains(a),
        heap@.contains(b),
    ensures
        r == not_above(heap@.value(a), heap@.value(b)),
{
    match heap.value(a) {
        JsValue::Number(x) => match heap.value(b) {
            JsValue::Number(y) => at_most(*x, *y),
            _ => false,
        },
        _ => false,
    }
}

/// Whether the values in two cells are equal: see [`equal`].
pub fn eq(heap: &Heap, a: JsVar, b: JsVar) -> (r: bool)
    requires
        heap@.contains(a),
        heap@.contains(b),
    ensures
        r == equal(heap@.value(a), heap@.value(b)),
{
    match heap.value(a) {
        JsValue::Number(x) => match heap.value(b) {
            JsValue::Number(y) => same(*x, *y),
            _ => false,
        },
        JsValue::Boolean(x) => match heap.value(b) {
            JsValue::Boolean(y) => *x == *y,
            _ => false,
        },
        JsValue::String(x) => match heap.value(b) {
            JsValue::String(y) => *x == *y,
            _ => false,
        },
        JsValue::Null => match heap.value(b) {
            JsValue::Null => true,
            _ => false,
        },
        JsValue::Undefined => match heap.value(b) {
            JsValue::Undefined => true,
            _ => false,
        },
        _ => false,
    }
}

/// The negation of [`eq`].
pub fn neq(heap: &Heap, a: JsVar, b: JsVar) -> (r: bool)
    requires
        heap@.contains(a),
        heap@.contains(b),
    ensures
        r == !equal(heap@.value(a), heap@.value(b)),
{
    !eq(heap, a, b)
}

/// Whether both values count as true.
pub fn and(heap: &Heap, a: JsVar, b: JsVar) -> (r: bool)
    requires
        heap@.contains(a),
        heap@.contains(b),
    ensures
        r == (truthy(heap@.value(a)) && truthy(heap@.value(b))),
{
    is_truthy(heap, a) && is_truthy(heap, b)
}

/// Whether one of the values counts as true.
pub fn or(heap: &Heap, a: JsVar, b: JsVar) -> (r: bool)
    requires
        heap@.contains(a),
        heap@.contains(b),
    ensures
        r == (truthy(heap@.value(a)) || truthy(heap@.value(b))),
{
    is_truthy(heap, a) || is_truthy(heap, b)
}

/// Whether the value does not count as true.
pub fn not(heap: &Heap, a: JsVar) -> (r: bool)
    requires
        heap@.contains(a),
    ensures
        r == !truthy(heap@.value(a)),
{
    !is_truthy(heap, a)
}

/// A new cell that holds the name of the type of the value in `a`.
pub fn typeof_js(heap: &mut Heap, a: JsVar) -> (r: JsVar)
    requires
        old(heap).wf(),
        old(heap)@.contains(a),
    ensures
        r == old(heap)@.next(),
        final(heap)@ == old(heap)@.allocate(Value::String(kind_name(old(heap)@.value(a)))),
        final(heap)@.extends(old(heap)@),
        final(heap).wf(),
{
    let name: &str = match heap.value(a) {
        JsValue::Undefined => "undefined",
        JsValue::Null => "object",
        JsValue::Number(_) => "number",
        JsValue::String(_) => "string",
        JsValue::Boolean(_) => "boolean",
        JsValue::Array(_) => "object",
        JsValue::Object(_) => "object",
        JsValue::Function(_) => "function",
    };
    heap.allocate(JsValue::String(String::from_str(name)))
}

/// A new cell that holds the number in `val` as text with a fixed count of
/// fractional digits, in the host's rendering. The count is the index that
/// the number in `digits` stands for, and zero where `digits` holds no
/// number. Where `val` holds no number the text is "NaN".
pub fn to_fixed<F: Fn(u64, usize) -> String>(
    heap: &mut Heap,
    val: JsVar,
    digits: JsVar,
    fixed: &F,
) -> (r: JsVar)
    requires
        old(heap).wf(),
        old(heap)@.contains(val),
        old(heap)@.contains(digits),
        fixed_ready(old(heap)@.value(val), old(heap)@.value(digits), *fixed),
    ensures
        r == old(heap)@.next(),
        final(heap)@ == old(heap)@.allocate(final(heap)@.value(r)),
        final(heap)@.extends(old(heap)@),
        is_fixed(old(heap)@.value(val), old(heap)@.value(digits), *fixed, final(heap)@.value(r)),
        final(heap).wf(),
{
    let count: usize = match heap.value(digits) {
        JsValue::Number(bits) => index_of(*bits),
        _ => 0,
    };
    let rendered: String = match heap.value(val) {
        JsValue::Number(bits) => fixed(*bits, count),
        _ => String::from_str("NaN"),
    };
    let r = heap.allocate(JsValue::String(rendered));
    r
}

} // verus!
