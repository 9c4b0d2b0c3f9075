use vstd::prelude::*;

verus! {

/// The capability every input buffer offers: a length, emptiness, and
/// splitting at an index into two sub-buffers.
///
/// Buffers are borrowed views of unit sequences; splitting hands out two
/// further views without copying anything.
pub trait BufRef<T>: Sized + Copy {
    /// The units this buffer holds.
    spec fn units(self) -> Seq<T>;

    /// The number of units in the buffer.
    fn len(self) -> (r: usize)
        ensures
            r == self.units().len(),
    ;

    /// Whether the buffer holds no units.
    fn is_empty(self) -> (r: bool)
        ensures
            r <==> self.units().len() == 0,
    ;

    /// Split the buffer at `mid`, which must lie within it.
    fn split_at(self, mid: usize) -> (r: (Self, Self))
        requires
            mid <= self.units().len(),
        ensures
            r.0.units() == self.units().take(mid as int),
            r.1.units() == self.units().skip(mid as int),
    ;

    /// Drop the first `mid` units, which must lie within the buffer.
    fn drop_up_to(self, mid: usize) -> (r: Self)
        requires
            mid <= self.units().len(),
        ensures
            r.units() == self.units().skip(mid as int),
    {
        self.split_at(mid).1
    }
}

impl<'a, T> BufRef<T> for &'a [T] {
    open spec fn units(self) -> Seq<T> {
        self@
    }

    fn len(self) -> (r: usize) {
        <[T]>::len(self)
    }

    fn is_empty(self) -> (r: bool) {
        <[T]>::is_empty(self)
    }

    fn split_at(self, mid: usize) -> (r: (Self, Self)) {
        <[T]>::split_at(self, mid)
    }
}

} // verus!
