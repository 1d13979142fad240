//! Values whose type has been erased, as contracts speak of them.
//!
//! A payload of any type, and the state of a handler of any type, have to be
//! spoken of in contracts that do not know the type. [`Sealed`] is what stands for
//! such a value there: the value in a box, as a trait object of a trait that every
//! type has.
use vstd::prelude::*;

verus! {

/// Every `'static` type. The trait has no part in any computation: it is here
/// for [`Sealed`], which stands for a value behind `dyn Any` in contracts.
pub trait Anything {

}

impl<T: 'static> Anything for T {

}

/// The model of a value of any type whose type has been erased.
pub struct Sealed {
    pub value: Box<dyn Anything>,
}

/// The model of `data` with its type erased.
pub open spec fn sealed<D: 'static>(data: D) -> Sealed {
    Sealed { value: Box::new(data) }
}

} // verus!
