//! A small runtime of dynamically typed values.
//!
//! Values live in cells, and cells live in a [`heap::Heap`]. A cell is named
//! by a handle, [`value::JsVar`], which is its identity: arrays and objects
//! hold handles, so a change of a cell is seen by everyone who holds it.
//! While an array is traversed or a function runs, a view is held on the
//! cell concerned, and an attempt to change that cell is refused with
//! [`access::Fault`].
//!
//! Numbers are IEEE 754 binary64 bit patterns. The runtime itself does only
//! integer work on them (see [`number`]): it classifies and compares them
//! and converts between numbers and indices. Floating-point arithmetic and
//! the decimal text of numbers belong to the host, which hands its routines
//! to the operations that need them. Functions of the host are named by
//! numbers, and the host hands in the routine that runs them (see
//! [`invoke`]).
//!
//! Every operation states what it does over the models of the heap and of
//! the values, [`heap::HeapModel`] and [`value::Value`]; [`laws`] holds what
//! follows for several operations together.
pub mod number;
pub mod text;
pub mod value;
pub mod heap;
pub mod create;
pub mod operators;
pub mod access;
pub mod invoke;
pub mod format;
pub mod laws;
