//! The values of the runtime and their mathematical model.
use vstd::prelude::*;

verus! {

/// A handle to one cell of a [`crate::heap::Heap`]. Two handles name the
/// same cell exactly when they are equal: the handle is the cell's identity.
#[derive(Clone, Copy, PartialEq, Eq, Debug, Structural)]
pub struct JsVar {
    pub slot: usize,
}

/// What a function value can be invoked as.
#[derive(Clone, Copy, PartialEq, Eq, Debug, Structural)]
pub enum JsFunc {
    /// A function of the host, known to it by this number.
    Native(u64),
    /// The resolver handed to a promise executor: it returns its first
    /// argument, and an undefined value when called without one.
    Resolver,
}

/// One dynamic value. Compound values hold handles, not values, so their
/// elements are shared with every other holder of the same handle.
#[derive(Debug)]
pub enum JsValue {
    Undefined,
    Null,
    /// A number, as its binary64 bit pattern.
    Number(u64),
    String(String),
    Boolean(bool),
    Array(Vec<JsVar>),
    /// The properties in the order in which their keys first came, each key once.
    Object(Vec<(String, JsVar)>),
    Function(JsFunc),
}

/// The model of a [`JsValue`]: text as sequences of characters, containers
/// as sequences.
pub ghost enum Value {
    Undefined,
    Null,
    Number(u64),
    String(Seq<char>),
    Boolean(bool),
    Array(Seq<JsVar>),
    Object(Seq<(Seq<char>, JsVar)>),
    Function(JsFunc),
}

/// The model of a list of properties.
pub open spec fn entries_view(entries: Seq<(String, JsVar)>) -> Seq<(Seq<char>, JsVar)> {
    Seq::new(entries.len(), |i: int| (entries[i].0@, entries[i].1))
}

impl View for JsValue {
    type V = Value;

    open spec fn view(&self) -> Value {
        match self {
            JsValue::Undefined => Value::Undefined,
            JsValue::Null => Value::Null,
            JsValue::Number(bits) => Value::Number(*bits),
            JsValue::String(s) => Value::String(s@),
            JsValue::Boolean(b) => Value::Boolean(*b),
            JsValue::Array(items) => Value::Array(items@),
            JsValue::Object(entries) => Value::Object(entries_view(entries@)),
            JsValue::Function(f) => Value::Function(*f),
        }
    }
}

impl Clone for JsValue {
    /// A copy of the value. Handles are copied as handles: the copy of an
    /// array or an object shares the cells of its elements with the value
    /// that it was copied from.
    fn clone(&self) -> (copy: JsValue)
        ensures
            copy@ == self@,
    {
        match self {
            JsValue::Undefined => JsValue::Undefined,
            JsValue::Null => JsValue::Null,
            JsValue::Number(bits) => JsValue::Number(*bits),
            JsValue::String(s) => JsValue::String(s.clone()),
            JsValue::Boolean(b) => JsValue::Boolean(*b),
            JsValue::Array(items) => {
                let mut copy: Vec<JsVar> = Vec::new();
                let mut i: usize = 0;
                while i < items.len()
                    invariant
                        i <= items@.len(),
                        copy@ == items@.subrange(0, i as int),
                    decreases items@.len() - i,
                {
                    copy.push(items[i]);
                    i += 1;
                }
                assert(copy@ =~= items@);
                JsValue::Array(copy)
            },
            JsValue::Object(entries) => {
                let mut copy: Vec<(String, JsVar)> = Vec::new();
                let mut i: usize = 0;
                while i < entries.len()
                    invariant
                        i <= entries@.len(),
                        copy@.len() == i,
                        entries_view(copy@) == entries_view(entries@).subrange(0, i as int),
                    decreases entries@.len() - i,
                {
                    let key: String = entries[i].0.clone();
                    copy.push((key, entries[i].1));
                    i += 1;
                }
                assert(entries_view(copy@) =~= entries_view(entries@));
                JsValue::Object(copy)
            },
            JsValue::Function(f) => JsValue::Function(*f),
        }
    }
}

/// Whether some property has this key.
pub open spec fn has_key(entries: Seq<(Seq<char>, JsVar)>, key: Seq<char>) -> bool {
    exists|i: int| 0 <= i < entries.len() && (#[trigger] entries[i]).0 == key
}

/// A place at which a property with this key stands. Meaningful when
/// [`has_key`] holds; with distinct keys it is the only such place.
pub open spec fn key_position(entries: Seq<(Seq<char>, JsVar)>, key: Seq<char>) -> int {
    choose|i: int| 0 <= i < entries.len() && (#[trigger] entries[i]).0 == key
}

/// No key stands twice.
pub open spec fn distinct_keys(entries: Seq<(Seq<char>, JsVar)>) -> bool {
    forall|i: int, j: int|
        0 <= i < j < entries.len() ==> (#[trigger] entries[i]).0 != (#[trigger] entries[j]).0
}

/// The property stored under a key, if there is one.
pub open spec fn lookup(entries: Seq<(Seq<char>, JsVar)>, key: Seq<char>) -> Option<JsVar> {
    if has_key(entries, key) {
        Some(entries[key_position(entries, key)].1)
    } else {
        None
    }
}

/// The properties after `key` has been set to `var`: the property is
/// overwritten in place where the key is known, and added at the end
/// where it is new.
pub open spec fn upsert(entries: Seq<(Seq<char>, JsVar)>, key: Seq<char>, var: JsVar) -> Seq<
    (Seq<char>, JsVar),
> {
    if has_key(entries, key) {
        entries.update(key_position(entries, key), (key, var))
    } else {
        entries.push((key, var))
    }
}

/// The properties that result from setting the given pairs one after the
/// other, starting with none: of two pairs with one key the later one wins.
pub open spec fn collect(props: Seq<(Seq<char>, JsVar)>) -> Seq<(Seq<char>, JsVar)>
    decreases props.len(),
{
    if props.len() == 0 {
        Seq::empty()
    } else {
        upsert(collect(props.drop_last()), props.last().0, props.last().1)
    }
}

/// Every handle of the list names one of the first `n` cells.
pub open spec fn handles_below(items: Seq<JsVar>, n: nat) -> bool {
    forall|i: int| 0 <= i < items.len() ==> (#[trigger] items[i]).slot < n
}

/// Every property holds a handle to one of the first `n` cells.
pub open spec fn properties_below(entries: Seq<(Seq<char>, JsVar)>, n: nat) -> bool {
    forall|i: int| 0 <= i < entries.len() ==> (#[trigger] entries[i]).1.slot < n
}

impl Value {
    /// Whether the value can live in a heap of `n` cells: every handle in
    /// it names one of them, and an object has each key once.
    pub open spec fn fits(self, n: nat) -> bool {
        match self {
            Value::Array(items) => handles_below(items, n),
            Value::Object(entries) => distinct_keys(entries) && properties_below(entries, n),
            _ => true,
        }
    }
}

/// Setting a key keeps the keys distinct, stores the handle under the key
/// and leaves every other key as it was.
pub proof fn lemma_upsert(entries: Seq<(Seq<char>, JsVar)>, key: Seq<char>, var: JsVar)
    requires
        distinct_keys(entries),
    ensures
        distinct_keys(upsert(entries, key, var)),
        lookup(upsert(entries, key, var), key) == Some(var),
        forall|other: Seq<char>|
            other != key ==> lookup(upsert(entries, key, var), other) == lookup(entries, other),
        has_key(entries, key) ==> upsert(entries, key, var).len() == entries.len(),
        !has_key(entries, key) ==> upsert(entries, key, var).len() == entries.len() + 1,
{
    let after = upsert(entries, key, var);
    let p = if has_key(entries, key) {
        key_position(entries, key)
    } else {
        entries.len() as int
    };
    assert(after[p] == (key, var));
    assert forall|i: int, j: int| 0 <= i < j < after.len() implies (#[trigger] after[i]).0 != (
    #[trigger] after[j]).0 by {
    }
    assert(key_position(after, key) == p) by {
    }
    assert forall|other: Seq<char>| other != key implies lookup(after, other) == lookup(
        entries,
        other,
    ) by {
        if has_key(entries, other) {
            let q = key_position(entries, other);
            assert(after[q] == entries[q]);
        } else if has_key(after, other) {
        }
    }
}

} // verus!
