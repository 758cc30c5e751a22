//! Field-binding rules for input objects of a query-serving engine.
//!
//! A [`descriptor::ObjectDescriptor`] declares the fields of a typed record:
//! their identifiers, wire names, types, defaults and documentation. From such
//! a descriptor the crate derives two things: a decoder that turns an untyped
//! wire value into a typed record (or a structured error), and an
//! introspectable metadata object for a schema registry.

pub mod decode;
pub mod descriptor;
pub mod docs;
pub mod encode;
pub mod meta;
pub mod rename;
pub mod render;
pub mod text;
pub mod value;

use vstd::prelude::*;

verus! {

/// The sample query root: one resolver whose argument is a fixed-length
/// integer sequence, bound by the decoder before the resolver runs.
pub struct Root;

impl Root {
    /// Accepts any bound three-element argument; the binding rules decide
    /// beforehand whether wire input decodes into one.
    pub fn x(_input: [i32; 3]) -> (r: bool)
        ensures
            r,
    {
        true
    }
}

} // verus!
