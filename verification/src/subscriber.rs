//! Handlers and their registrations.
use crate::event::Event;
use crate::erased::sealed;
use crate::erased::Sealed;
use crate::tag::is_tag_of;
use crate::tag::tag_of;
use crate::tag::tag_of_type;
use std::any::TypeId;
use vstd::prelude::*;

verus! {

/// `std::io::Error`, the failure that a handler may report. Verified code hands
/// it on and never looks inside.
#[verifier::external_type_specification]
#[verifier::external_body]
pub struct ExIoError(std::io::Error);

/// A handler of events.
///
/// The dispatcher calls [`call`](Subscriber::call) with a shared reference to each
/// event that is posted under a name for which the handler is registered. The
/// handler may change its own state; it cannot change the event. It answers
/// `Ok(())`, or the failure that ends the post.
///
/// What a call does is the handler's own affair, and the handler says it in
/// [`reacts`](Subscriber::reacts): the dispatcher promises of a post that each
/// handler that it called has reacted once to the event, whatever that means for
/// the handler. A handler that has nothing to say of itself lets `reacts` hold
/// of everything.
pub trait Subscriber {
    /// The state of the handler, as its contract sees it. A handler that says
    /// nothing of its state has the state of the unit.
    open spec fn state(&self) -> Sealed {
        sealed(())
    }

    /// Whether the handler, called with `event`, may give `answer` and be left in
    /// the state `after`. It holds of everything unless the handler says
    /// otherwise.
    open spec fn reacts(&self, event: Event, answer: Result<(), std::io::Error>, after: Sealed) -> bool {
        true
    }

    /// Handles `event`.
    fn call(&mut self, event: &Event) -> (answer: Result<(), std::io::Error>)
        ensures
            old(self).reacts(*event, answer, final(self).state()),
    ;
}

/// A handler in its box, its type erased.
pub struct Handler {
    pub boxed: Box<dyn Subscriber>,
}

/// `subscriber` in its box.
pub open spec fn handler_of<S: Subscriber + 'static>(subscriber: S) -> Handler {
    Handler { boxed: Box::new(subscriber) }
}

/// A handler as the dispatcher holds it: beside a tag, by which it is picked out
/// for removal.
pub struct Registration {
    pub tag: TypeId,
    pub handler: Handler,
}

/// The registration of `subscriber`: the handler in its box, beside the tag of
/// its type.
pub open spec fn enrolled<S: Subscriber + 'static>(subscriber: S) -> Registration {
    Registration { tag: tag_of(subscriber), handler: handler_of(subscriber) }
}

/// The registrations of `subscribers`, in their order.
pub open spec fn enrolled_all<S: Subscriber + 'static>(subscribers: Seq<S>) -> Seq<Registration> {
    Seq::new(subscribers.len(), |i: int| enrolled(subscribers[i]))
}

/// The tags of the types of `subscribers`, in their order.
pub open spec fn tags_of<S: Subscriber + 'static>(subscribers: Seq<S>) -> Seq<TypeId> {
    Seq::new(subscribers.len(), |i: int| tag_of(subscribers[i]))
}

impl Registration {
    /// The registration of `subscriber`. Its tag is that of every handler of type
    /// `S`.
    pub fn new<S: Subscriber + 'static>(subscriber: S) -> (registration: Registration)
        ensures
            registration == enrolled(subscriber),
            is_tag_of::<S>(registration.tag),
    {
        Registration { tag: tag_of_type::<S>(), handler: Handler { boxed: Box::new(subscriber) } }
    }
}

} // verus!
