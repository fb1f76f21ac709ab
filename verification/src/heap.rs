//! The arena in which the cells live.
//!
//! A cell is a slot of the heap; a [`JsVar`] names it. Cells are never
//! removed, so a handle stays good for the life of its heap. Each cell also
//! counts the views that a traversal or a running call holds on it: while
//! that count is not zero the cell's value may be read and must not change.
use vstd::prelude::*;
use crate::value::{JsValue, JsVar, Value};

verus! {

/// The model of one cell.
pub ghost struct CellModel {
    pub value: Value,
    pub views: nat,
}

/// The model of a heap: its cells by slot, and the lines written so far.
pub ghost struct HeapModel {
    pub cells: Seq<CellModel>,
    pub output: Seq<Seq<char>>,
}

impl HeapModel {
    /// Whether the handle names a cell of this heap.
    pub open spec fn contains(self, var: JsVar) -> bool {
        var.slot < self.cells.len()
    }

    /// Whether every handle of the list names a cell of this heap.
    pub open spec fn contains_all(self, vars: Seq<JsVar>) -> bool {
        forall|i: int| 0 <= i < vars.len() ==> self.contains(#[trigger] vars[i])
    }

    /// The value in the cell.
    pub open spec fn value(self, var: JsVar) -> Value {
        self.cells[var.slot as int].value
    }

    /// The number of views held on the cell.
    pub open spec fn views(self, var: JsVar) -> nat {
        self.cells[var.slot as int].views
    }

    /// Every stored value fits the heap, and a handle can count its cells.
    pub open spec fn wf(self) -> bool {
        &&& self.cells.len() <= usize::MAX
        &&& forall|i: int|
            0 <= i < self.cells.len() ==> (#[trigger] self.cells[i]).value.fits(self.cells.len())
    }

    /// The handle that the next new cell gets.
    pub open spec fn next(self) -> JsVar {
        JsVar { slot: self.cells.len() as usize }
    }

    /// The heap with one more cell, holding `value` and unviewed.
    pub open spec fn allocate(self, value: Value) -> HeapModel {
        HeapModel { cells: self.cells.push(CellModel { value, views: 0 }), output: self.output }
    }

    /// The heap with the content of one cell replaced.
    pub open spec fn with_value(self, var: JsVar, value: Value) -> HeapModel {
        HeapModel {
            cells: self.cells.update(
                var.slot as int,
                CellModel { value, views: self.views(var) },
            ),
            output: self.output,
        }
    }

    /// The heap with one more view on a cell.
    pub open spec fn enter(self, var: JsVar) -> HeapModel {
        HeapModel {
            cells: self.cells.update(
                var.slot as int,
                CellModel { value: self.value(var), views: self.views(var) + 1 },
            ),
            output: self.output,
        }
    }

    /// The heap with one view fewer on a cell.
    pub open spec fn leave(self, var: JsVar) -> HeapModel {
        HeapModel {
            cells: self.cells.update(
                var.slot as int,
                CellModel { value: self.value(var), views: (self.views(var) - 1) as nat },
            ),
            output: self.output,
        }
    }

    /// The heap with one more line of output.
    pub open spec fn emit(self, line: Seq<char>) -> HeapModel {
        HeapModel { cells: self.cells, output: self.output.push(line) }
    }

    /// What every run of operations keeps of an earlier heap: its cells are
    /// still there, with the same views on them; a cell that was viewed
    /// holds what it held; and its output is the beginning of the output.
    pub open spec fn extends(self, before: HeapModel) -> bool {
        &&& before.cells.len() <= self.cells.len()
        &&& forall|i: int|
            0 <= i < before.cells.len() ==> (#[trigger] self.cells[i]).views
                == before.cells[i].views
        &&& forall|i: int|
            0 <= i < before.cells.len() && before.cells[i].views > 0 ==> (
            #[trigger] self.cells[i]).value == before.cells[i].value
        &&& before.output.len() <= self.output.len()
        &&& self.output.subrange(0, before.output.len() as int) == before.output
    }
}

/// One cell.
struct Slot {
    value: JsValue,
    views: usize,
}

/// The arena of cells, with the lines written by [`crate::format::log`] and
/// by failed calls.
pub struct Heap {
    slots: Vec<Slot>,
    lines: Vec<String>,
}

impl View for Heap {
    type V = HeapModel;

    closed spec fn view(&self) -> HeapModel {
        HeapModel {
            cells: Seq::new(
                self.slots@.len(),
                |i: int| CellModel { value: self.slots@[i].value@, views: self.slots@[i].views as nat },
            ),
            output: Seq::new(self.lines@.len(), |i: int| self.lines@[i]@),
        }
    }
}

impl Heap {
    /// Whether every stored value fits the heap.
    pub open spec fn wf(&self) -> bool {
        self@.wf()
    }

    /// A heap without cells or output.
    pub fn new() -> (heap: Heap)
        ensures
            heap@.cells.len() == 0,
            heap@.output.len() == 0,
            heap.wf(),
    {
        Heap { slots: Vec::new(), lines: Vec::new() }
    }

    /// The number of cells.
    pub fn len(&self) -> (n: usize)
        ensures
            n == self@.cells.len(),
    {
        self.slots.len()
    }

    /// Whether the handle names a cell of this heap.
    pub fn contains(&self, var: JsVar) -> (r: bool)
        ensures
            r == self@.contains(var),
    {
        var.slot < self.slots.len()
    }

    /// The value in a cell.
    pub fn value(&self, var: JsVar) -> (r: &JsValue)
        requires
            self@.contains(var),
        ensures
            r@ == self@.value(var),
    {
        &self.slots[var.slot].value
    }

    /// Whether a traversal or a running call holds a view on the cell.
    pub fn is_viewed(&self, var: JsVar) -> (r: bool)
        requires
            self@.contains(var),
        ensures
            r == (self@.views(var) > 0),
    {
        self.slots[var.slot].views > 0
    }

    /// Whether one more view can be counted on the cell.
    pub fn can_enter(&self, var: JsVar) -> (r: bool)
        requires
            self@.contains(var),
        ensures
            r == (self@.views(var) < usize::MAX),
    {
        self.slots[var.slot].views < usize::MAX
    }

    /// Puts a value into a new cell and returns the handle to it.
    pub fn allocate(&mut self, value: JsValue) -> (var: JsVar)
        requires
            old(self).wf(),
            value@.fits(old(self)@.cells.len()),
        ensures
            final(self)@ == old(self)@.allocate(value@),
            var == old(self)@.next(),
            final(self)@.contains(var),
            final(self).wf(),
            final(self)@.extends(old(self)@),
    {
        proof {
            lemma_allocate_extends(self@, value@);
        }
        let var = JsVar { slot: self.slots.len() };
        self.slots.push(Slot { value, views: 0 });
        assert(self.slots.len() == self.slots@.len());
        assert(self@.cells =~= old(self)@.cells.push(CellModel { value: value@, views: 0 }));
        var
    }

    /// Puts a value into a cell on which no view is held, and returns what
    /// the cell held.
    pub(crate) fn exchange(&mut self, var: JsVar, value: JsValue) -> (before: JsValue)
        requires
            old(self).wf(),
            old(self)@.contains(var),
            old(self)@.views(var) == 0,
            value@.fits(old(self)@.cells.len()),
        ensures
            final(self)@ == old(self)@.with_value(var, value@),
            before@ == old(self)@.value(var),
            final(self).wf(),
            final(self)@.extends(old(self)@),
    {
        proof {
            lemma_with_value_extends(self@, var, value@);
        }
        let mut held = value;
        std::mem::swap(&mut self.slots[var.slot].value, &mut held);
        assert(self@.cells =~= old(self)@.with_value(var, value@).cells);
        held
    }

    /// Counts one more view on a cell.
    pub(crate) fn enter(&mut self, var: JsVar)
        requires
            old(self)@.contains(var),
            old(self)@.views(var) < usize::MAX,
        ensures
            final(self)@ == old(self)@.enter(var),
            old(self).wf() ==> final(self).wf(),
    {
        let views: usize = self.slots[var.slot].views;
        self.slots[var.slot].views = views + 1;
        assert(self@.cells =~= old(self)@.enter(var).cells);
    }

    /// Gives back one view on a cell.
    pub(crate) fn leave(&mut self, var: JsVar)
        requires
            old(self)@.contains(var),
            old(self)@.views(var) > 0,
        ensures
            final(self)@ == old(self)@.leave(var),
            old(self).wf() ==> final(self).wf(),
    {
        let views: usize = self.slots[var.slot].views;
        self.slots[var.slot].views = views - 1;
        assert(self@.cells =~= old(self)@.leave(var).cells);
    }

    /// Writes one line to the output.
    pub fn emit(&mut self, line: String)
        ensures
            final(self)@ == old(self)@.emit(line@),
            old(self).wf() ==> final(self).wf(),
            final(self)@.extends(old(self)@),
    {
        proof {
            lemma_emit_extends(self@, line@);
        }
        self.lines.push(line);
        assert(self@.output =~= old(self)@.output.push(line@));
    }

    /// Hands out the lines written so far and leaves the output empty.
    pub fn take_output(&mut self) -> (lines: Vec<String>)
        ensures
            lines@.len() == old(self)@.output.len(),
            forall|i: int| 0 <= i < lines@.len() ==> (#[trigger] lines@[i])@ == old(self)@.output[i],
            final(self)@.cells == old(self)@.cells,
            final(self)@.output.len() == 0,
    {
        let mut lines: Vec<String> = Vec::new();
        std::mem::swap(&mut self.lines, &mut lines);
        lines
    }
}

/// A heap with a new cell extends the heap without it.
pub proof fn lemma_allocate_extends(a: HeapModel, value: Value)
    ensures
        a.allocate(value).extends(a),
{
    assert(a.allocate(value).output.subrange(0, a.output.len() as int) =~= a.output);
}

/// A heap in which an unviewed cell got another content extends the heap
/// as it was.
pub proof fn lemma_with_value_extends(a: HeapModel, var: JsVar, value: Value)
    requires
        a.contains(var),
        a.views(var) == 0,
    ensures
        a.with_value(var, value).extends(a),
{
    assert(a.with_value(var, value).output.subrange(0, a.output.len() as int) =~= a.output);
}

/// A heap with one more line of output extends the heap without it.
pub proof fn lemma_emit_extends(a: HeapModel, line: Seq<char>)
    ensures
        a.emit(line).extends(a),
{
    assert(a.emit(line).output.subrange(0, a.output.len() as int) =~= a.output);
}

/// Every heap extends itself.
pub proof fn lemma_extends_itself(a: HeapModel)
    ensures
        a.extends(a),
{
    assert(a.output.subrange(0, a.output.len() as int) =~= a.output);
}

/// What extends an extension of a heap extends that heap.
pub proof fn lemma_extends_chain(a: HeapModel, b: HeapModel, c: HeapModel)
    requires
        b.extends(a),
        c.extends(b),
    ensures
        c.extends(a),
{
    assert forall|i: int| 0 <= i < a.cells.len() implies (#[trigger] c.cells[i]).views
        == a.cells[i].views by {
    }
    assert forall|i: int| 0 <= i < a.cells.len() && a.cells[i].views > 0 implies (
    #[trigger] c.cells[i]).value == a.cells[i].value by {
    }
    assert(c.output.subrange(0, a.output.len() as int) =~= b.output.subrange(
        0,
        a.output.len() as int,
    )) by {
        assert forall|i: int| 0 <= i < a.output.len() implies c.output[i] == b.output[i] by {
        }
    }
}

} // verus!
