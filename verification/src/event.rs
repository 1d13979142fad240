//! Events: a name and a payload of any type.
//!
//! The payload's type is erased when the event is made and asked for again when
//! the payload is read. The payload lies behind `Box<dyn Any>`, which the
//! verifier cannot look into, so what an event carries is stated over a model of
//! it: [`sealed`] is the model of a value whose type has been erased, and the
//! contracts of [`Event::new`] and [`Event::data`] say which value an event
//! [`holds`](Event::holds).
use crate::erased::sealed;
use crate::erased::Sealed;
use std::any::Any;
use vstd::prelude::*;

verus! {

/// A value of any `'static` type behind `Box<dyn Any>`.
///
/// The verifier does not know `dyn Any`, so the box is hidden from it. What it
/// knows of a payload is its [`content`], and it knows that from [`seal`] and
/// [`peek`].
#[verifier::external_body]
pub struct Payload {
    value: Box<dyn Any>,
}

/// What `payload` holds: the model of the value that was put into the box.
pub uninterp spec fn content(payload: Payload) -> Sealed;

/// `Box::new(data)`, as a `Box<dyn Any>`.
///
/// Trusted: that the box holds `data` and no other `D`.
#[verifier::external_body]
fn seal<D: 'static>(data: D) -> (payload: Payload)
    ensures
        content(payload) == sealed(data),
        forall|other: D| content(payload) == sealed(other) ==> other == data,
{
    Payload { value: Box::new(data) }
}

/// `<dyn Any>::downcast_ref::<T>` on the boxed value: a reference to it if it is
/// a `T`, and `None` if it is of any other type.
///
/// Trusted: that after `Some(data)` the box holds `*data` and no other `T`, and
/// that after `None` it holds no `T` at all.
#[verifier::external_body]
fn peek<T: 'static>(payload: &Payload) -> (found: Option<&T>)
    ensures
        match found {
            Some(data) => {
                &&& content(*payload) == sealed(*data)
                &&& forall|other: T| content(*payload) == sealed(other) ==> other == *data
            },
            None => forall|data: T| content(*payload) != sealed(data),
        },
{
    payload.value.downcast_ref::<T>()
}

/// A named event with its payload.
///
/// Neither the name nor the payload changes once the event is made. The view of
/// an event is its name.
pub struct Event {
    name: String,
    payload: Payload,
}

impl View for Event {
    type V = Seq<char>;

    closed spec fn view(&self) -> Seq<char> {
        self.name@
    }
}

impl Event {
    /// Whether the payload is `data`, of type `D`, and no other `D`.
    pub closed spec fn holds<D: 'static>(&self, data: D) -> bool {
        &&& content(self.payload) == sealed(data)
        &&& forall|other: D| content(self.payload) == sealed(other) ==> other == data
    }

    /// An event holds one payload: what [`data`](Event::data) gives, of an event
    /// that [`new`](Event::new) made of `data`, is `data`.
    pub proof fn law_holds_one<D: 'static>(self, data: D, found: D)
        requires
            self.holds(data),
            self.holds(found),
        ensures
            found == data,
    {
    }

    /// An event called `name` that carries `data`. Any name will do, the empty
    /// one too.
    pub fn new<D: 'static>(name: &str, data: D) -> (event: Event)
        ensures
            event@ == name@,
            event.holds(data),
    {
        Event { name: name.to_owned(), payload: seal(data) }
    }

    /// The event's name.
    pub fn name(&self) -> (name: &str)
        ensures
            name@ == self@,
    {
        self.name.as_str()
    }

    /// The payload, if it is a `T`: `Some` of the value that the event was made
    /// with if `T` is its type, and `None` if the event was made with a value of
    /// any other type.
    pub fn try_data<T: 'static>(&self) -> (found: Option<&T>)
        ensures
            match found {
                Some(data) => self.holds(*data),
                None => forall|data: T| !self.holds(data),
            },
    {
        peek::<T>(&self.payload)
    }

    /// The payload, which must be a `T`: the value that the event was made with.
    ///
    /// To ask for a type that the payload does not have is a mistake of the
    /// caller, and `requires` rules it out. Where the type is not known to be
    /// right, [`try_data`](Event::try_data) answers `None` instead.
    pub fn data<T: 'static>(&self) -> (data: &T)
        requires
            exists|data: T| self.holds(data),
        ensures
            self.holds(*data),
    {
        self.try_data::<T>().unwrap()
    }
}

} // verus!
