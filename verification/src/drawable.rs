//! The kinds of shape a simulated object can be drawn as.

use vstd::prelude::*;

verus! {

/// The outline of a drawable object.
#[derive(Clone, Copy, Debug, PartialEq, Eq, Structural)]
pub enum Shape {
    SQUARE,
    CIRCLE,
}

/// The name of each shape, as it is printed.
pub open spec fn shape_name(shape: Shape) -> Seq<char> {
    match shape {
        Shape::SQUARE => "SQUARE"@,
        Shape::CIRCLE => "CIRCLE"@,
    }
}

/// Returns the upper-case name of `shape`.
pub fn shape_to_string(shape: &Shape) -> (name: &'static str)
    ensures
        name@ == shape_name(*shape),
{
    match shape {
        Shape::SQUARE => "SQUARE",
        Shape::CIRCLE => "CIRCLE",
    }
}

} // verus!
