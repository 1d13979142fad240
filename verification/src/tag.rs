//! Type tags: the run-time identity of a handler's type.
//!
//! Handlers have no equality of their own, so a handler is registered beside the
//! tag of its type, and it is by that tag that it is found again when it is to be
//! removed. Tags are values of `std::any::TypeId`. The verifier sees nothing
//! inside a tag: it can tell whether two tags are equal, and it knows that all
//! handlers of one type have one tag.
use crate::subscriber::handler_of;
use crate::subscriber::Handler;
use crate::subscriber::Subscriber;
use std::any::TypeId;
use vstd::prelude::*;

verus! {

/// `std::any::TypeId`, carried through verified code as an opaque value.
#[verifier::external_type_specification]
#[verifier::external_body]
pub struct ExTypeId(TypeId);

/// The tag of the type of the handler in the box: what `TypeId::of` gives for
/// that type.
pub uninterp spec fn type_tag(handler: Handler) -> TypeId;

/// The tag of the type of `subscriber`.
pub open spec fn tag_of<S: Subscriber + 'static>(subscriber: S) -> TypeId {
    type_tag(handler_of(subscriber))
}

/// Whether `tag` is the tag of `S`: the one tag that every handler of type `S`
/// has.
pub open spec fn is_tag_of<S: Subscriber + 'static>(tag: TypeId) -> bool {
    forall|subscriber: S| #[trigger] type_tag(handler_of(subscriber)) == tag
}

/// `TypeId::of::<S>()`.
///
/// Trusted: that what comes back is the tag of every handler of type `S`.
#[verifier::external_body]
pub(crate) fn tag_of_type<S: Subscriber + 'static>() -> (tag: TypeId)
    ensures
        forall|subscriber: S| #[trigger] type_tag(handler_of(subscriber)) == tag,
{
    TypeId::of::<S>()
}

/// Whether two tags are the same, by `TypeId`'s own `==`.
///
/// Trusted: that `==` on `TypeId` holds of two tags exactly when they are one
/// and the same tag.
#[verifier::external_body]
pub(crate) fn same_tag(a: &TypeId, b: &TypeId) -> (same: bool)
    ensures
        same == (*a == *b),
{
    a == b
}

} // verus!
