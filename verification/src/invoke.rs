//! Calling function values, and the synchronous stand-ins for promises and
//! timers.
//!
//! A function value is either the built-in resolver or a function of the
//! host, named by a number. The host hands in one routine that runs its
//! function of a given number on a heap and a list of arguments and gives
//! back the heap and the result. While a function runs, a view is held on
//! the cell through which it was called.
use vstd::prelude::*;
use crate::create::{new_num, new_object, new_str, new_undefined};
use crate::number::{from_index, from_nat};
use crate::heap::{Heap, HeapModel, lemma_extends_chain, lemma_extends_itself};
use crate::value::{JsFunc, JsValue, JsVar, Value, collect, entries_view};

verus! {

/// What the runtime asks of the host's routine: it can be called on every
/// well-formed heap with arguments of that heap, and it then returns a
/// well-formed heap that extends the one it got, and a result of that heap.
pub open spec fn well_behaved<I: Fn(Heap, u64, Vec<JsVar>) -> (Heap, JsVar)>(invoke: I) -> bool {
    &&& forall|h: Heap, id: u64, args: Vec<JsVar>|
        h.wf() && h@.contains_all(args@) ==> #[trigger] invoke.requires((h, id, args))
    &&& forall|h: Heap, id: u64, args: Vec<JsVar>, out: (Heap, JsVar)|
        h.wf() && h@.contains_all(args@) && #[trigger] invoke.ensures((h, id, args), out)
            ==> out.0.wf() && out.0@.contains(out.1) && out.0@.extends(h@)
}

/// The name of a value's kind, as the complaint about a failed call gives it.
pub open spec fn kind_label(v: Value) -> Seq<char> {
    match v {
        Value::Undefined => "Undefined"@,
        Value::Null => "Null"@,
        Value::Number(_) => "Number"@,
        Value::String(_) => "String"@,
        Value::Boolean(_) => "Boolean"@,
        Value::Array(_) => "Array"@,
        Value::Object(_) => "Object"@,
        Value::Function(_) => "Function"@,
    }
}

/// The line written when something that is no function is called.
pub open spec fn complaint(v: Value) -> Seq<char> {
    "Erro: Tentou chamar algo que não é função: "@ + kind_label(v)
}

/// Whether `after` and `r` are the heap and the result of calling the cell
/// `func` with `args` on the heap `before`. A function of the host runs on
/// the heap with one more view on `func`, and that view is given back when
/// it returns. The resolver returns its first argument and changes nothing,
/// or makes an undefined value where it has no argument. Anything else
/// writes a complaint and gives a new undefined value.
pub open spec fn call_effect<I: Fn(Heap, u64, Vec<JsVar>) -> (Heap, JsVar)>(
    invoke: I,
    before: HeapModel,
    func: JsVar,
    args: Seq<JsVar>,
    after: HeapModel,
    r: JsVar,
) -> bool {
    match before.value(func) {
        Value::Function(JsFunc::Native(id)) => exists|h1: Heap, a: Vec<JsVar>, h2: Heap|
            h1@ == before.enter(func) && a@ == args && #[trigger] invoke.ensures(
                (h1, id, a),
                (h2, r),
            ) && after == h2@.leave(func),
        Value::Function(JsFunc::Resolver) => if args.len() > 0 {
            r == args[0] && after == before
        } else {
            r == before.next() && after == before.allocate(Value::Undefined)
        },
        other => r == before.next() && after == before.emit(complaint(other)).allocate(
            Value::Undefined,
        ),
    }
}

/// Whether one more view can be counted on `func` where a call needs it.
pub open spec fn can_call(before: HeapModel, func: JsVar) -> bool {
    before.value(func) matches Value::Function(JsFunc::Native(_)) ==> before.views(func)
        < usize::MAX
}

/// When a view is taken on a cell, the heap goes on from there, and the
/// view is given back, then the heap with the view given back extends the
/// heap from before the view was taken, and the cell holds what it held.
proof fn lemma_view_given_back(before: HeapModel, last: HeapModel, var: JsVar)
    requires
        before.contains(var),
        last.extends(before.enter(var)),
    ensures
        last.leave(var).extends(before),
        last.leave(var).enter(var) == last,
        last.leave(var).value(var) == before.value(var),
        last.wf() ==> last.leave(var).wf(),
{
    assert(last.leave(var).enter(var).cells =~= last.cells);
}

/// The line that complains about a call of `value`.
fn complain(value: &JsValue) -> (line: String)
    ensures
        line@ == complaint(value@),
{
    let label: &str = match value {
        JsValue::Undefined => "Undefined",
        JsValue::Null => "Null",
        JsValue::Number(_) => "Number",
        JsValue::String(_) => "String",
        JsValue::Boolean(_) => "Boolean",
        JsValue::Array(_) => "Array",
        JsValue::Object(_) => "Object",
        JsValue::Function(_) => "Function",
    };
    let mut line: String = String::from_str("Erro: Tentou chamar algo que não é função: ");
    line.append(label);
    line
}

/// Calls the function in the cell `func` with `args`: see [`call_effect`].
/// Calling what is no function is no fault: it writes one line of complaint
/// and gives the undefined value.
pub fn call<I: Fn(Heap, u64, Vec<JsVar>) -> (Heap, JsVar)>(
    heap: &mut Heap,
    func: JsVar,
    args: Vec<JsVar>,
    invoke: &I,
) -> (r: JsVar)
    requires
        old(heap).wf(),
        old(heap)@.contains(func),
        old(heap)@.contains_all(args@),
        can_call(old(heap)@, func),
        well_behaved(*invoke),
    ensures
        call_effect(*invoke, old(heap)@, func, args@, final(heap)@, r),
        old(heap)@.value(func) is Function ==> final(heap)@.value(func) == old(heap)@.value(func),
        final(heap).wf(),
        final(heap)@.contains(r),
        final(heap)@.extends(old(heap)@),
{
    proof {
        lemma_extends_itself(heap@);
    }
    match heap.value(func) {
        JsValue::Function(JsFunc::Native(id)) => {
            let id: u64 = *id;
            heap.enter(func);
            let mut running: Heap = Heap::new();
            std::mem::swap(heap, &mut running);
            let (returned, r) = invoke(running, id, args);
            *heap = returned;
            heap.leave(func);
            r
        },
        JsValue::Function(JsFunc::Resolver) => {
            if args.len() > 0 {
                args[0]
            } else {
                new_undefined(heap)
            }
        },
        other => {
            let line: String = complain(other);
            heap.emit(line);
            new_undefined(heap)
        },
    }
}

/// What the runtime asks of a step function of the host: what
/// [`well_behaved`] asks of the host's routine for function values.
pub open spec fn step_well_behaved<F: Fn(Heap, Vec<JsVar>) -> (Heap, JsVar)>(step: F) -> bool {
    &&& forall|h: Heap, args: Vec<JsVar>|
        h.wf() && h@.contains_all(args@) ==> #[trigger] step.requires((h, args))
    &&& forall|h: Heap, args: Vec<JsVar>, out: (Heap, JsVar)|
        h.wf() && h@.contains_all(args@) && #[trigger] step.ensures((h, args), out)
            ==> out.0.wf() && out.0@.contains(out.1) && out.0@.extends(h@)
}

/// Whether `after` is the heap that one run of the step function on the
/// heap `before` and on `args` leaves. Its result is dropped.
pub open spec fn step_effect<F: Fn(Heap, Vec<JsVar>) -> (Heap, JsVar)>(
    step: F,
    before: HeapModel,
    args: Seq<JsVar>,
    after: HeapModel,
) -> bool {
    exists|h1: Heap, a: Vec<JsVar>, h2: Heap, r: JsVar|
        h1@ == before && a@ == args && #[trigger] step.ensures((h1, a), (h2, r)) && after == h2@
}

/// The arguments of the visit of one element: the element, the cell with
/// its index, and the array.
pub open spec fn visit_args(item: JsVar, index_cell: JsVar, arr: JsVar) -> Seq<JsVar> {
    seq![item, index_cell, arr]
}

/// Whether `end` is the heap after the step function has visited the first
/// `k` elements of `items`, one after the other from the first on, starting
/// on the heap `start`. The visit of the element at index `i` first makes a
/// new cell for the number `i`, and then runs the step function once, on the
/// element, that cell and the array `arr`, in this order.
pub open spec fn stepped<F: Fn(Heap, Vec<JsVar>) -> (Heap, JsVar)>(
    step: F,
    arr: JsVar,
    items: Seq<JsVar>,
    k: nat,
    start: HeapModel,
    end: HeapModel,
) -> bool
    decreases k,
{
    if k == 0 {
        end == start
    } else {
        exists|mid: HeapModel|
            stepped(step, arr, items, (k - 1) as nat, start, mid) && #[trigger] step_effect(
                step,
                mid.allocate(Value::Number(from_nat((k - 1) as nat))),
                visit_args(items[k - 1], mid.next(), arr),
                end,
            )
    }
}

/// Whether `end` is the heap after the function in the cell `callback` has
/// been called for the first `k` elements of `items`, one after the other
/// from the first on, starting on the heap `start`. The visit of the element
/// at index `i` first makes a new cell for the number `i`, and then calls
/// `callback` once, as [`call_effect`] says, with the element, that cell and
/// the array `arr`, in this order. The results are dropped.
pub open spec fn called<I: Fn(Heap, u64, Vec<JsVar>) -> (Heap, JsVar)>(
    invoke: I,
    callback: JsVar,
    arr: JsVar,
    items: Seq<JsVar>,
    k: nat,
    start: HeapModel,
    end: HeapModel,
) -> bool
    decreases k,
{
    if k == 0 {
        end == start
    } else {
        exists|mid: HeapModel, r: JsVar|
            called(invoke, callback, arr, items, (k - 1) as nat, start, mid) && #[trigger]
            call_effect(
                invoke,
                mid.allocate(Value::Number(from_nat((k - 1) as nat))),
                callback,
                visit_args(items[k - 1], mid.next(), arr),
                end,
                r,
            )
    }
}

/// The elements of the array in `arr`, or nothing where it holds no array.
fn elements(heap: &Heap, arr: JsVar) -> (r: Option<Vec<JsVar>>)
    requires
        heap@.contains(arr),
    ensures
        match heap@.value(arr) {
            Value::Array(items) => r matches Some(v) && v@ == items,
            _ => r.is_none(),
        },
{
    match heap.value(arr) {
        JsValue::Array(items) => {
            let mut copy: Vec<JsVar> = Vec::new();
            let mut i: usize = 0;
            while i < items.len()
                invariant
                    i <= items@.len(),
                    copy@ == items@.subrange(0, i as int),
                decreases items@.len() - i,
            {
                copy.push(items[i]);
                i += 1;
            }
            Some(copy)
        },
        _ => None,
    }
}

/// Runs `step` once for each element of the array in `arr`, from the first
/// element to the last: see [`stepped`]. A view is held on the array for
/// the whole traversal, so the visits run on a heap with one more view on
/// `arr` than before and after, and the array itself cannot change; the
/// cells of its elements can. Where `arr` holds no array nothing happens.
pub fn for_each_variant<F: Fn(Heap, Vec<JsVar>) -> (Heap, JsVar)>(
    heap: &mut Heap,
    arr: JsVar,
    step: &F,
)
    requires
        old(heap).wf(),
        old(heap)@.contains(arr),
        old(heap)@.value(arr) is Array ==> old(heap)@.views(arr) < usize::MAX,
        step_well_behaved(*step),
    ensures
        match old(heap)@.value(arr) {
            Value::Array(items) => stepped(
                *step,
                arr,
                items,
                items.len(),
                old(heap)@.enter(arr),
                final(heap)@.enter(arr),
            ),
            _ => final(heap)@ == old(heap)@,
        },
        final(heap)@.value(arr) == old(heap)@.value(arr),
        final(heap).wf(),
        final(heap)@.extends(old(heap)@),
{
    proof {
        lemma_extends_itself(heap@);
    }
    let items: Vec<JsVar> = match elements(heap, arr) {
        Some(items) => items,
        None => {
            return ;
        },
    };
    heap.enter(arr);
    let ghost entered = heap@;
    let mut i: usize = 0;
    while i < items.len()
        invariant
            i <= items@.len(),
            heap.wf(),
            heap@.extends(entered),
            entered == old(heap)@.enter(arr),
            old(heap)@.contains(arr),
            old(heap)@.value(arr) == Value::Array(items@),
            entered.contains_all(items@),
            stepped(*step, arr, items@, i as nat, entered, heap@),
            step_well_behaved(*step),
        decreases items@.len() - i,
    {
        let ghost mid = heap@;
        let index_cell: JsVar = new_num(heap, from_index(i));
        let args: Vec<JsVar> = vec![items[i], index_cell, arr];
        let mut running: Heap = Heap::new();
        std::mem::swap(heap, &mut running);
        let ghost handed = running;
        let (returned, _r) = step(running, args);
        *heap = returned;
        proof {
            lemma_extends_chain(entered, handed@, heap@);
            let k = (i + 1) as nat;
            assert(step_effect(
                *step,
                mid.allocate(Value::Number(from_nat((k - 1) as nat))),
                visit_args(items@[k - 1], mid.next(), arr),
                heap@,
            ));
        }
        i += 1;
    }
    proof {
        lemma_view_given_back(old(heap)@, heap@, arr);
    }
    heap.leave(arr);
}

/// Calls the function in the cell `callback` once for each element of the
/// array in `arr`, from the first element to the last: see [`called`]. A
/// view is held on the array for the whole traversal, so the calls run on a
/// heap with one more view on `arr` than before and after, and the array
/// itself cannot change; the cells of its elements can. Where `arr` holds no
/// array nothing happens.
pub fn for_each<I: Fn(Heap, u64, Vec<JsVar>) -> (Heap, JsVar)>(
    heap: &mut Heap,
    arr: JsVar,
    callback: JsVar,
    invoke: &I,
)
    requires
        old(heap).wf(),
        old(heap)@.contains(arr),
        old(heap)@.contains(callback),
        old(heap)@.value(arr) is Array ==> old(heap)@.views(arr) < usize::MAX && old(heap)@.views(
            callback,
        ) < usize::MAX,
        well_behaved(*invoke),
    ensures
        match old(heap)@.value(arr) {
            Value::Array(items) => called(
                *invoke,
                callback,
                arr,
                items,
                items.len(),
                old(heap)@.enter(arr),
                final(heap)@.enter(arr),
            ),
            _ => final(heap)@ == old(heap)@,
        },
        final(heap)@.value(arr) == old(heap)@.value(arr),
        final(heap).wf(),
        final(heap)@.extends(old(heap)@),
{
    proof {
        lemma_extends_itself(heap@);
    }
    let items: Vec<JsVar> = match elements(heap, arr) {
        Some(items) => items,
        None => {
            return ;
        },
    };
    heap.enter(arr);
    let ghost entered = heap@;
    let mut i: usize = 0;
    while i < items.len()
        invariant
            i <= items@.len(),
            heap.wf(),
            heap@.extends(entered),
            entered == old(heap)@.enter(arr),
            old(heap)@.contains(arr),
            old(heap)@.contains(callback),
            old(heap)@.views(arr) < usize::MAX,
            old(heap)@.views(callback) < usize::MAX,
            old(heap)@.value(arr) == Value::Array(items@),
            entered.contains_all(items@),
            called(*invoke, callback, arr, items@, i as nat, entered, heap@),
            well_behaved(*invoke),
        decreases items@.len() - i,
    {
        let ghost mid = heap@;
        let index_cell: JsVar = new_num(heap, from_index(i));
        let args: Vec<JsVar> = vec![items[i], index_cell, arr];
        let ghost handed = heap@;
        let r = call(heap, callback, args, invoke);
        proof {
            lemma_extends_chain(entered, handed, heap@);
            let k = (i + 1) as nat;
            assert(call_effect(
                *invoke,
                mid.allocate(Value::Number(from_nat((k - 1) as nat))),
                callback,
                visit_args(items@[k - 1], mid.next(), arr),
                heap@,
                r,
            ));
        }
        i += 1;
    }
    proof {
        lemma_view_given_back(old(heap)@, heap@, arr);
    }
    heap.leave(arr);
}

/// Whether `after` and `r` are the heap and the result of [`Promise`] on
/// the heap `before`: a new cell gets the resolver; the executor is called
/// once, with that cell as its one argument, and its result is dropped;
/// then come a new cell with the text "resolved" and a new cell with the
/// object whose one property, "status", is that text. The object is the
/// result.
pub open spec fn promised<I: Fn(Heap, u64, Vec<JsVar>) -> (Heap, JsVar)>(
    invoke: I,
    before: HeapModel,
    executor: JsVar,
    after: HeapModel,
    r: JsVar,
) -> bool {
    exists|mid: HeapModel, out: JsVar| #[trigger]
        call_effect(
            invoke,
            before.allocate(Value::Function(JsFunc::Resolver)),
            executor,
            Seq::<JsVar>::empty().push(before.next()),
            mid,
            out,
        ) && after == mid.allocate(Value::String("resolved"@)).allocate(
            Value::Object(seq![("status"@, mid.next())]),
        ) && r == mid.allocate(Value::String("resolved"@)).next()
}

/// Whether the cell `r` holds an object with the one property "status",
/// and that property holds the text "resolved".
pub open spec fn is_resolved(heap: HeapModel, r: JsVar) -> bool {
    heap.value(r) matches Value::Object(entries) && entries.len() == 1 && entries[0].0
        == "status"@ && heap.contains(entries[0].1) && heap.value(entries[0].1) == Value::String(
        "resolved"@,
    )
}

/// The synchronous stand-in for a promise: see [`promised`]. The result is
/// an object with the status "resolved", whatever the executor did.
#[allow(non_snake_case)]
pub fn Promise<I: Fn(Heap, u64, Vec<JsVar>) -> (Heap, JsVar)>(
    heap: &mut Heap,
    executor: JsVar,
    invoke: &I,
) -> (r: JsVar)
    requires
        old(heap).wf(),
        old(heap)@.contains(executor),
        can_call(old(heap)@, executor),
        well_behaved(*invoke),
    ensures
        promised(*invoke, old(heap)@, executor, final(heap)@, r),
        is_resolved(final(heap)@, r),
        final(heap).wf(),
        final(heap)@.contains(r),
        final(heap)@.extends(old(heap)@),
{
    let ghost before = heap@;
    let resolve: JsVar = heap.allocate(JsValue::Function(JsFunc::Resolver));
    let ghost armed = heap@;
    let args: Vec<JsVar> = vec![resolve];
    assert(args@ =~= Seq::<JsVar>::empty().push(before.next()));
    let out = call(heap, executor, args, invoke);
    let ghost mid = heap@;
    let status: JsVar = new_str(heap, "resolved");
    let ghost named = heap@;
    let props: Vec<(String, JsVar)> = vec![(String::from_str("status"), status)];
    proof {
        let pairs = entries_view(props@);
        assert(collect(pairs.drop_last()) =~= Seq::<(Seq<char>, JsVar)>::empty());
    }
    let r = new_object(heap, props);
    r
}

/// Whether `after` and `r` are the heap and the result of [`setTimeout`] on
/// the heap `before`: the callback is called once, without arguments, and
/// its result is dropped; the result is a new undefined value.
pub open spec fn timed_out<I: Fn(Heap, u64, Vec<JsVar>) -> (Heap, JsVar)>(
    invoke: I,
    before: HeapModel,
    callback: JsVar,
    after: HeapModel,
    r: JsVar,
) -> bool {
    exists|mid: HeapModel, out: JsVar| #[trigger]
        call_effect(invoke, before, callback, Seq::<JsVar>::empty(), mid, out) && after
            == mid.allocate(Value::Undefined) && r == mid.next()
}

/// The synchronous stand-in for a timer: see [`timed_out`]. The callback
/// runs at once, and the delay is not looked at.
#[allow(non_snake_case)]
pub fn setTimeout<I: Fn(Heap, u64, Vec<JsVar>) -> (Heap, JsVar)>(
    heap: &mut Heap,
    callback: JsVar,
    _delay: JsVar,
    invoke: &I,
) -> (r: JsVar)
    requires
        old(heap).wf(),
        old(heap)@.contains(callback),
        can_call(old(heap)@, callback),
        well_behaved(*invoke),
    ensures
        timed_out(*invoke, old(heap)@, callback, final(heap)@, r),
        final(heap)@.value(r) == Value::Undefined,
        final(heap).wf(),
        final(heap)@.contains(r),
        final(heap)@.extends(old(heap)@),
{
    let ghost before = heap@;
    let args: Vec<JsVar> = Vec::new();
    let out = call(heap, callback, args, invoke);
    let ghost mid = heap@;
    let r = new_undefined(heap);
    r
}

} // verus!
