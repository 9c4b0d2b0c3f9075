use vstd::prelude::*;

verus! {

/// An input unit: a copyable element whose equality can be decided.
///
/// Buffers are sequences of units; parsers such as
/// [`crate::primitive::Literal`] compare units to match input.
pub trait Unit: Copy + Sized {
    /// Decide whether two units are the same.
    fn same(self, other: Self) -> (r: bool)
        ensures
            r <==> self == other,
    ;
}

impl Unit for u8 {
    fn same(self, other: u8) -> (r: bool) {
        self == other
    }
}

impl Unit for char {
    fn same(self, other: char) -> (r: bool) {
        self == other
    }
}

} // verus!
