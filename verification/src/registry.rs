//! The registry: what a dispatcher holds, as the verifier sees it.
//!
//! A [`Registry`] maps every name to the sequence of registrations under it, in
//! the order in which they were made. A name that nothing is registered under
//! maps to the empty sequence, so "never seen" and "emptied again" are one state.
use crate::bus::PostFailure;
use crate::event::Event;
use crate::subscriber::Registration;
use std::any::TypeId;
use vstd::prelude::*;

verus! {

/// Every name, with the registrations under it in order of registration.
pub type Registry = Map<Seq<char>, Seq<Registration>>;

/// Whether `registry` has an entry for every name. The registry of every
/// dispatcher has.
pub open spec fn is_total(registry: Registry) -> bool {
    forall|name: Seq<char>| registry.dom().contains(name)
}

/// The registry in which no name has a registration.
pub open spec fn vacant() -> Registry {
    Map::total(|name: Seq<char>| Seq::<Registration>::empty())
}

/// Whether `i` is the position of the first registration in `handlers` that
/// carries `tag`.
pub open spec fn is_first_carrying(handlers: Seq<Registration>, tag: TypeId, i: int) -> bool {
    &&& 0 <= i < handlers.len()
    &&& handlers[i].tag == tag
    &&& forall|j: int| 0 <= j < i ==> handlers[j].tag != tag
}

/// Whether some registration in `handlers` carries `tag`.
pub open spec fn carries(handlers: Seq<Registration>, tag: TypeId) -> bool {
    exists|i: int| 0 <= i < handlers.len() && handlers[i].tag == tag
}

/// The position of the first registration in `handlers` that carries `tag`.
/// It means something only where [`carries`] holds.
pub open spec fn first_carrying(handlers: Seq<Registration>, tag: TypeId) -> int {
    choose|i: int| is_first_carrying(handlers, tag, i)
}

/// `handlers` without the first registration that carries `tag`; `handlers`
/// itself if none does. The others keep their order.
pub open spec fn without_first(handlers: Seq<Registration>, tag: TypeId) -> Seq<Registration> {
    if carries(handlers, tag) {
        handlers.remove(first_carrying(handlers, tag))
    } else {
        handlers
    }
}

/// `registry` after `registration` was added under `name`: it comes last under
/// that name, and nothing else changes.
pub open spec fn registered(registry: Registry, name: Seq<char>, registration: Registration) -> Registry {
    registry.insert(name, registry[name].push(registration))
}

/// `registry` after `registrations` were added under `name`, in their order.
pub open spec fn registered_all(
    registry: Registry,
    name: Seq<char>,
    registrations: Seq<Registration>,
) -> Registry {
    registry.insert(name, registry[name] + registrations)
}

/// `registry` after the first registration under `name` that carries `tag` was
/// removed; `registry` itself if there is none.
pub open spec fn unregistered(registry: Registry, name: Seq<char>, tag: TypeId) -> Registry {
    registry.insert(name, without_first(registry[name], tag))
}

/// `registry` after one removal under `name` for each of `tags`, from the first
/// tag to the last.
pub open spec fn unregistered_all(registry: Registry, name: Seq<char>, tags: Seq<TypeId>) -> Registry
    decreases tags.len(),
{
    if tags.len() == 0 {
        registry
    } else {
        unregistered(unregistered_all(registry, name, tags.drop_last()), name, tags.last())
    }
}

/// The registry that a list of names with their registrations seeds: each entry
/// is added in turn, so a name that the list holds twice gets the registrations
/// of both entries, those of the earlier entry first.
pub open spec fn seeded(initial: Seq<(String, Vec<Registration>)>) -> Registry
    decreases initial.len(),
{
    if initial.len() == 0 {
        vacant()
    } else {
        registered_all(seeded(initial.drop_last()), initial.last().0@, initial.last().1@)
    }
}

/// Whether the handler of `before` was called once with `event`, gave `answer`,
/// and is the handler of `after`, beside the tag that it had.
pub open spec fn answered(
    before: Registration,
    event: Event,
    answer: Result<(), std::io::Error>,
    after: Registration,
) -> bool {
    &&& after.tag == before.tag
    &&& before.handler.boxed.reacts(event, answer, after.handler.boxed.state())
}

/// What a post of `event` does to a registry, given how the post ended.
///
/// Nothing changes under any name but that of the event. Under that name there
/// are as many registrations as before, with the tags that they had. After a
/// post that ended well each of their handlers was called once with the event and
/// answered `Ok`. After one that failed this holds of the handlers before the one
/// at `position`; that one was called once and answered with the failure's
/// `cause`; and those behind it were not called and are what they were.
pub open spec fn posted(
    before: Registry,
    after: Registry,
    event: Event,
    outcome: Result<(), PostFailure>,
) -> bool {
    let held = before[event@];
    let left = after[event@];
    &&& forall|other: Seq<char>| other != event@ ==> after[other] == before[other]
    &&& left.len() == held.len()
    &&& match outcome {
        Ok(()) => forall|i: int| 0 <= i < held.len() ==> answered(held[i], event, Ok(()), left[i]),
        Err(failure) => {
            let at = failure.position as int;
            &&& at < held.len()
            &&& forall|i: int| 0 <= i < at ==> answered(held[i], event, Ok(()), left[i])
            &&& answered(held[at], event, Err(failure.cause), left[at])
            &&& forall|i: int| at < i < held.len() ==> left[i] == held[i]
        },
    }
}

/// There is at most one first registration that carries `tag`.
pub proof fn lemma_first_carrying_is_unique(handlers: Seq<Registration>, tag: TypeId, i: int)
    requires
        is_first_carrying(handlers, tag, i),
    ensures
        carries(handlers, tag),
        first_carrying(handlers, tag) == i,
        without_first(handlers, tag) == handlers.remove(i),
{
    let j = first_carrying(handlers, tag);
    assert(is_first_carrying(handlers, tag, j));
    if j < i {
        assert(handlers[j].tag != tag);
    } else if i < j {
        assert(handlers[i].tag != tag);
    }
}

/// Where some registration carries a tag, one of them is the first.
pub proof fn lemma_some_first_carrying(handlers: Seq<Registration>, tag: TypeId)
    requires
        carries(handlers, tag),
    ensures
        is_first_carrying(handlers, tag, first_carrying(handlers, tag)),
        without_first(handlers, tag) == handlers.remove(first_carrying(handlers, tag)),
{
    let i = choose|i: int| 0 <= i < handlers.len() && handlers[i].tag == tag;
    lemma_first_before(handlers, tag, i);
}

/// Where the registration at `i` carries a tag, one at or before `i` is the
/// first to carry it.
proof fn lemma_first_before(handlers: Seq<Registration>, tag: TypeId, i: int)
    requires
        0 <= i < handlers.len(),
        handlers[i].tag == tag,
    ensures
        is_first_carrying(handlers, tag, first_carrying(handlers, tag)),
    decreases i,
{
    if exists|j: int| 0 <= j < i && handlers[j].tag == tag {
        let j = choose|j: int| 0 <= j < i && handlers[j].tag == tag;
        lemma_first_before(handlers, tag, j);
    } else {
        assert(is_first_carrying(handlers, tag, i));
    }
}

} // verus!
