//! An in-process publish/subscribe dispatcher.
//!
//! Producers post named [`Event`]s that carry a payload of any type. Consumers
//! register handlers, which are [`Subscriber`]s, under an event name. Posting an
//! event hands it to every handler registered under its name, one after the
//! other, in the order in which they were registered, and within the call of
//! [`EventBus::post`].
//!
//! The dispatcher is an [`EventBus`]. To the verifier it is a map from every name
//! to the sequence of [`Registration`]s under that name, which is empty for a name
//! that nothing is registered under. The contracts of its methods are stated over
//! that map, with the functions of [`registry`], and [`laws`] proves what follows
//! from them. What a handler does when it is called is the handler's to say, in
//! [`Subscriber::reacts`]; the dispatcher says which handlers it calls, with what,
//! and how often.
//!
//! Two things are taken on trust from the standard library, and the contracts of
//! the few functions that call it say what: that all handlers of one type have
//! one tag ([`tag`]), and that a payload comes out of its box as the value that
//! went in, if it is asked for by its type ([`event`]).
pub mod erased;
pub mod tag;
pub mod event;
pub mod subscriber;
pub mod registry;
pub mod bus;
pub mod laws;

pub use bus::EventBus;
pub use bus::PostFailure;
pub use event::Event;
pub use subscriber::Handler;
pub use subscriber::Registration;
pub use subscriber::Subscriber;
