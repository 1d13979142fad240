//! What follows from the contracts of the dispatcher, for every registry.
//!
//! Each law is stated over the functions of [`crate::registry`], in which the
//! dispatcher's methods state what they do: `registered` is what `subscribe` and
//! `register` do to the registry, `unregistered` what `unsubscribe` and
//! `unregister` do, and `posted` what `post` does.
use crate::bus::PostFailure;
use crate::event::Event;
use crate::registry::answered;
use crate::registry::carries;
use crate::registry::first_carrying;
use crate::registry::is_first_carrying;
use crate::registry::is_total;
use crate::registry::lemma_first_carrying_is_unique;
use crate::registry::lemma_some_first_carrying;
use crate::registry::posted;
use crate::registry::registered;
use crate::registry::registered_all;
use crate::registry::seeded;
use crate::registry::unregistered;
use crate::registry::vacant;
use crate::registry::Registry;
use crate::subscriber::enrolled;
use crate::subscriber::enrolled_all;
use crate::subscriber::Registration;
use crate::subscriber::Subscriber;
use crate::tag::is_tag_of;
use crate::tag::tag_of;
use std::any::TypeId;
use vstd::prelude::*;

verus! {

/// How many of `handlers` carry `tag`.
pub open spec fn count_carrying(handlers: Seq<Registration>, tag: TypeId) -> nat
    decreases handlers.len(),
{
    if handlers.len() == 0 {
        0
    } else {
        count_carrying(handlers.drop_last(), tag) + if handlers.last().tag == tag {
            1nat
        } else {
            0nat
        }
    }
}

/// `registry` after each of `subscribers` was registered under `name` by
/// itself, the first of them first.
pub open spec fn subscribed_each<S: Subscriber + 'static>(
    registry: Registry,
    name: Seq<char>,
    subscribers: Seq<S>,
) -> Registry
    decreases subscribers.len(),
{
    if subscribers.len() == 0 {
        registry
    } else {
        registered(
            subscribed_each(registry, name, subscribers.drop_last()),
            name,
            enrolled(subscribers.last()),
        )
    }
}

/// A handler that is registered under a name stands there once more than
/// before, behind all that were there, and every other name keeps what it had.
pub proof fn law_subscribed_comes_last<S: Subscriber + 'static>(
    registry: Registry,
    name: Seq<char>,
    subscriber: S,
)
    ensures
        ({
            let after = registered(registry, name, enrolled(subscriber));
            &&& after[name].len() == registry[name].len() + 1
            &&& after[name].last() == enrolled(subscriber)
            &&& after[name].drop_last() == registry[name]
            &&& count_carrying(after[name], tag_of(subscriber)) == count_carrying(
                registry[name],
                tag_of(subscriber),
            ) + 1
            &&& forall|other: Seq<char>| other != name ==> after[other] == registry[other]
        }),
{
    assert(registry[name].push(enrolled(subscriber)).drop_last() =~= registry[name]);
}

/// A handler that was registered under a name is called once by a post of an
/// event of that name, with that event, unless a handler before it fails. Where
/// the post ends well, it has answered `Ok`; where the post fails at it, it has
/// answered with the failure; where the post fails before it, it was not called
/// and is what it was.
pub proof fn law_subscribed_is_called<S: Subscriber + 'static>(
    registry: Registry,
    subscriber: S,
    event: Event,
    after: Registry,
    outcome: Result<(), PostFailure>,
)
    requires
        posted(registered(registry, event@, enrolled(subscriber)), after, event, outcome),
    ensures
        after[event@].len() == registry[event@].len() + 1,
        match outcome {
            Ok(()) => answered(enrolled(subscriber), event, Ok(()), after[event@].last()),
            Err(failure) => if failure.position == registry[event@].len() {
                answered(enrolled(subscriber), event, Err(failure.cause), after[event@].last())
            } else {
                after[event@].last() == enrolled(subscriber)
            },
        },
{
    let before = registered(registry, event@, enrolled(subscriber));
    let last = registry[event@].len() as int;
    assert(before[event@][last] == enrolled(subscriber));
    assert(after[event@].last() == after[event@][last]);
}

/// Registrations under one name stand in the order in which they were made: of
/// two, the one made first stands before the other, and both stand behind those
/// that were there. A removal keeps the others in their order.
pub proof fn law_order_is_kept(
    registry: Registry,
    name: Seq<char>,
    first: Registration,
    second: Registration,
    tag: TypeId,
)
    ensures
        registered(registered(registry, name, first), name, second)[name] == registry[name].push(
            first,
        ).push(second),
        carries(registry[name], tag) ==> {
            let at = first_carrying(registry[name], tag);
            let rest = unregistered(registry, name, tag)[name];
            &&& is_first_carrying(registry[name], tag, at)
            &&& rest.len() + 1 == registry[name].len()
            &&& forall|i: int| 0 <= i < at ==> rest[i] == registry[name][i]
            &&& forall|i: int| at <= i < rest.len() ==> rest[i] == registry[name][i + 1]
        },
{
    if carries(registry[name], tag) {
        lemma_some_first_carrying(registry[name], tag);
    }
}

/// A post calls the handlers under the event's name in their order, from the
/// first on: where it fails at a handler, every handler before that one was
/// called and answered `Ok`, and no handler behind it was called. Whether it
/// fails or not, every registration is where it was, beside its tag.
pub proof fn law_called_in_order(
    before: Registry,
    after: Registry,
    event: Event,
    outcome: Result<(), PostFailure>,
    earlier: int,
    later: int,
)
    requires
        posted(before, after, event, outcome),
        0 <= earlier < later < before[event@].len(),
    ensures
        after[event@].len() == before[event@].len(),
        after[event@][earlier].tag == before[event@][earlier].tag,
        after[event@][later].tag == before[event@][later].tag,
        match outcome {
            Ok(()) => {
                &&& answered(before[event@][earlier], event, Ok(()), after[event@][earlier])
                &&& answered(before[event@][later], event, Ok(()), after[event@][later])
            },
            Err(failure) => {
                &&& failure.position >= later ==> answered(
                    before[event@][earlier],
                    event,
                    Ok(()),
                    after[event@][earlier],
                )
                &&& failure.position <= earlier ==> after[event@][later] == before[event@][later]
            },
        },
{
}

/// A post of an event under whose name nothing is registered calls no handler:
/// it ends well and changes nothing. In a dispatcher that nothing was registered
/// with, every name is such a name.
pub proof fn law_post_without_handlers(
    before: Registry,
    after: Registry,
    event: Event,
    outcome: Result<(), PostFailure>,
)
    requires
        is_total(before),
        is_total(after),
        before[event@].len() == 0,
        posted(before, after, event, outcome),
    ensures
        outcome is Ok,
        after == before,
        vacant()[event@].len() == 0,
{
    assert(after[event@] =~= before[event@]);
    assert(after =~= before);
}

/// A post of an event leaves the handlers under every other name as they were:
/// none of them is called.
pub proof fn law_post_keeps_other_names(
    before: Registry,
    after: Registry,
    event: Event,
    outcome: Result<(), PostFailure>,
    other: Seq<char>,
)
    requires
        posted(before, after, event, outcome),
        other != event@,
    ensures
        after[other] == before[other],
{
}

/// To remove a handler of a type of which none is registered under the name
/// changes nothing. A name that nothing is registered under is such a name.
pub proof fn law_unsubscribed_absent<S: Subscriber + 'static>(
    registry: Registry,
    name: Seq<char>,
    subscriber: S,
)
    requires
        is_total(registry),
        !carries(registry[name], tag_of(subscriber)),
    ensures
        unregistered(registry, name, tag_of(subscriber)) == registry,
        !carries(vacant()[name], tag_of(subscriber)),
{
    assert(unregistered(registry, name, tag_of(subscriber)) =~= registry);
}

/// To register handlers under a name together is to register them one by one.
pub proof fn law_subscribed_all_is_each<S: Subscriber + 'static>(
    registry: Registry,
    name: Seq<char>,
    subscribers: Seq<S>,
)
    requires
        is_total(registry),
    ensures
        registered_all(registry, name, enrolled_all(subscribers)) == subscribed_each(
            registry,
            name,
            subscribers,
        ),
    decreases subscribers.len(),
{
    if subscribers.len() == 0 {
        assert(registry[name] + enrolled_all(subscribers) =~= registry[name]);
        assert(registered_all(registry, name, enrolled_all(subscribers)) =~= registry);
    } else {
        let front = subscribers.drop_last();
        law_subscribed_all_is_each(registry, name, front);
        assert((registry[name] + enrolled_all(front)).push(enrolled(subscribers.last()))
            =~= registry[name] + enrolled_all(subscribers));
        assert(registered_all(registry, name, enrolled_all(subscribers)) =~= registered(
            registered_all(registry, name, enrolled_all(front)),
            name,
            enrolled(subscribers.last()),
        ));
    }
}

/// Two handlers of one type under one name, where there was none of that type:
/// the name has two of that type. To remove a handler of the type then leaves the
/// second, and to remove one once more leaves none.
pub proof fn law_same_type_twice<S: Subscriber + 'static>(
    registry: Registry,
    name: Seq<char>,
    first: S,
    second: S,
    probe: S,
)
    requires
        is_total(registry),
        is_tag_of::<S>(tag_of(first)),
        !carries(registry[name], tag_of(first)),
    ensures
        ({
            let twice = registered(
                registered(registry, name, enrolled(first)),
                name,
                enrolled(second),
            );
            let once = unregistered(twice, name, tag_of(probe));
            &&& count_carrying(twice[name], tag_of(probe)) == 2
            &&& once == registered(registry, name, enrolled(second))
            &&& count_carrying(once[name], tag_of(probe)) == 1
            &&& unregistered(once, name, tag_of(probe)) == registry
        }),
{
    lemma_twice_registered(registry, name, enrolled(first), enrolled(second));
}

/// A dispatcher that is seeded with a list in which no name occurs twice holds,
/// under each name of the list, the registrations listed with it, and nothing
/// under any other name.
pub proof fn law_seeded_with_a_mapping(initial: Seq<(String, Vec<Registration>)>)
    requires
        forall|i: int, j: int| 0 <= i < j < initial.len() ==> initial[i].0@ != initial[j].0@,
    ensures
        is_total(seeded(initial)),
        forall|i: int| 0 <= i < initial.len() ==> seeded(initial)[initial[i].0@] == initial[i].1@,
        forall|name: Seq<char>|
            (forall|i: int| 0 <= i < initial.len() ==> initial[i].0@ != name) ==> seeded(
                initial,
            )[name].len() == 0,
    decreases initial.len(),
{
    if initial.len() > 0 {
        let front = initial.drop_last();
        let last = initial.last();
        law_seeded_with_a_mapping(front);
        assert forall|i: int| 0 <= i < front.len() implies front[i].0@ != last.0@ by {
            assert(front[i] == initial[i]);
        }
        assert(seeded(front)[last.0@].len() == 0);
        assert(seeded(front)[last.0@] + last.1@ =~= last.1@);
        assert forall|i: int| 0 <= i < initial.len() implies seeded(initial)[initial[i].0@]
            == initial[i].1@ by {
            if i < front.len() {
                assert(front[i] == initial[i]);
            }
        }
        assert forall|name: Seq<char>|
            (forall|i: int| 0 <= i < initial.len() ==> initial[i].0@ != name) implies seeded(
            initial,
        )[name].len() == 0 by {
            assert(initial[initial.len() - 1].0@ != name);
            assert forall|i: int| 0 <= i < front.len() implies front[i].0@ != name by {
                assert(front[i] == initial[i]);
            }
        }
    }
}

/// A registration adds one to the count of its tag under its name, and leaves
/// the counts of all other tags as they were.
pub proof fn law_registered_counts(
    registry: Registry,
    name: Seq<char>,
    registration: Registration,
    tag: TypeId,
)
    ensures
        count_carrying(registered(registry, name, registration)[name], tag) == count_carrying(
            registry[name],
            tag,
        ) + if registration.tag == tag {
            1nat
        } else {
            0nat
        },
{
    assert(registry[name].push(registration).drop_last() =~= registry[name]);
}

/// A removal takes one from the count of its tag under its name, unless the
/// count is zero, and leaves the counts of all other tags as they were.
pub proof fn law_unregistered_counts(registry: Registry, name: Seq<char>, gone: TypeId, tag: TypeId)
    ensures
        count_carrying(unregistered(registry, name, gone)[name], tag) == if tag == gone
            && count_carrying(registry[name], gone) > 0 {
            (count_carrying(registry[name], tag) - 1) as nat
        } else {
            count_carrying(registry[name], tag)
        },
{
    let handlers = registry[name];
    lemma_count_is_zero_iff_absent(handlers, gone);
    if carries(handlers, gone) {
        lemma_some_first_carrying(handlers, gone);
        lemma_count_without(handlers, first_carrying(handlers, gone), tag);
    }
}

/// Two registrations with one tag under one name, where nothing carried that
/// tag: one removal by the tag leaves the second, another leaves none.
pub proof fn lemma_twice_registered(
    registry: Registry,
    name: Seq<char>,
    first: Registration,
    second: Registration,
)
    requires
        is_total(registry),
        first.tag == second.tag,
        !carries(registry[name], first.tag),
    ensures
        ({
            let twice = registered(registered(registry, name, first), name, second);
            let once = unregistered(twice, name, first.tag);
            &&& count_carrying(twice[name], first.tag) == 2
            &&& once == registered(registry, name, second)
            &&& count_carrying(once[name], first.tag) == 1
            &&& unregistered(once, name, first.tag) == registry
        }),
{
    let tag = first.tag;
    let held = registry[name];
    let twice = registered(registered(registry, name, first), name, second);
    let once = unregistered(twice, name, tag);
    lemma_count_is_zero_iff_absent(held, tag);
    law_registered_counts(registry, name, first, tag);
    law_registered_counts(registered(registry, name, first), name, second, tag);
    assert(twice[name] =~= held.push(first).push(second));
    assert(is_first_carrying(twice[name], tag, held.len() as int));
    lemma_first_carrying_is_unique(twice[name], tag, held.len() as int);
    assert(twice[name].remove(held.len() as int) =~= held.push(second));
    assert(once =~= registered(registry, name, second));
    law_registered_counts(registry, name, second, tag);
    assert(is_first_carrying(once[name], tag, held.len() as int));
    lemma_first_carrying_is_unique(once[name], tag, held.len() as int);
    assert(once[name].remove(held.len() as int) =~= held);
    assert(unregistered(once, name, tag) =~= registry);
}

/// No registration carries a tag exactly when the count of the tag is zero.
pub proof fn lemma_count_is_zero_iff_absent(handlers: Seq<Registration>, tag: TypeId)
    ensures
        carries(handlers, tag) <==> count_carrying(handlers, tag) > 0,
    decreases handlers.len(),
{
    if handlers.len() > 0 {
        let front = handlers.drop_last();
        lemma_count_is_zero_iff_absent(front, tag);
        if carries(front, tag) {
            let i = choose|i: int| 0 <= i < front.len() && front[i].tag == tag;
            assert(handlers[i].tag == tag);
        }
        if handlers.last().tag == tag {
            assert(handlers[handlers.len() - 1].tag == tag);
        }
        if carries(handlers, tag) {
            let i = choose|i: int| 0 <= i < handlers.len() && handlers[i].tag == tag;
            if i < front.len() {
                assert(front[i].tag == tag);
            }
        }
    }
}

/// Taking out the registration at `i` takes one from the count of its tag and
/// nothing from the count of any other.
pub proof fn lemma_count_without(handlers: Seq<Registration>, i: int, tag: TypeId)
    requires
        0 <= i < handlers.len(),
    ensures
        count_carrying(handlers.remove(i), tag) + if handlers[i].tag == tag {
            1nat
        } else {
            0nat
        } == count_carrying(handlers, tag),
    decreases handlers.len(),
{
    if i == handlers.len() - 1 {
        assert(handlers.remove(i) =~= handlers.drop_last());
    } else {
        lemma_count_without(handlers.drop_last(), i, tag);
        assert(handlers.remove(i).drop_last() =~= handlers.drop_last().remove(i));
        assert(handlers.remove(i).last() == handlers.last());
    }
}

} // verus!
