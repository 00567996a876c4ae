use vstd::prelude::*;

verus! {

/// A number: an integer of type `I` or a float of type `F`.
#[derive(Debug, Clone, PartialEq)]
pub enum Number<I, F> {
    Integer(I),
    Float(F),
}

} // verus!
