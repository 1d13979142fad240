//! The dispatcher.
//!
//! An [`EventBus`] keeps its names in a list, each with the registrations under
//! it, and finds a name by comparing it with the names in the list one by one.
use crate::event::Event;
use crate::registry::answered;
use crate::registry::carries;
use crate::registry::is_first_carrying;
use crate::registry::is_total;
use crate::registry::lemma_first_carrying_is_unique;
use crate::registry::posted;
use crate::registry::registered;
use crate::registry::registered_all;
use crate::registry::seeded;
use crate::registry::unregistered;
use crate::registry::unregistered_all;
use crate::registry::vacant;
use crate::registry::Registry;
use crate::subscriber::enrolled;
use crate::subscriber::enrolled_all;
use crate::subscriber::tags_of;
use crate::subscriber::Registration;
use crate::subscriber::Subscriber;
use crate::tag::is_tag_of;
use crate::tag::same_tag;
use crate::tag::tag_of;
use crate::tag::tag_of_type;
use std::any::TypeId;
use vstd::prelude::*;

verus! {

/// How a post ended that a handler's failure cut short.
#[derive(Debug)]
pub struct PostFailure {
    /// Where the handler that failed stands among those under the event's name.
    pub position: usize,
    /// What that handler reported.
    pub cause: std::io::Error,
}

impl PostFailure {
    /// What becomes of a post once the handler at `position` has answered: it
    /// goes on after `Ok`, and it ends with the handler's failure after `Err`.
    pub fn after(position: usize, answer: Result<(), std::io::Error>) -> (outcome: Result<
        (),
        PostFailure,
    >)
        ensures
            match answer {
                Ok(()) => outcome is Ok,
                Err(cause) => outcome == Err::<(), PostFailure>(PostFailure { position, cause }),
            },
    {
        match answer {
            Ok(()) => Ok(()),
            Err(cause) => Err(PostFailure { position, cause }),
        }
    }
}

/// One name with the registrations under it.
struct Topic {
    name: String,
    handlers: Vec<Registration>,
}

/// Whether `k` is the position of the first topic called `name`.
spec fn is_first_named(topics: Seq<Topic>, name: Seq<char>, k: int) -> bool {
    &&& 0 <= k < topics.len()
    &&& topics[k].name@ == name
    &&& forall|j: int| 0 <= j < k ==> topics[j].name@ != name
}

/// Whether some topic is called `name`.
spec fn names(topics: Seq<Topic>, name: Seq<char>) -> bool {
    exists|k: int| 0 <= k < topics.len() && topics[k].name@ == name
}

/// The position of the first topic called `name`, where there is one.
spec fn first_named(topics: Seq<Topic>, name: Seq<char>) -> int {
    choose|k: int| is_first_named(topics, name, k)
}

/// The registrations under `name`: those of the first topic called `name`, and
/// none where no topic is.
spec fn under(topics: Seq<Topic>, name: Seq<char>) -> Seq<Registration> {
    if names(topics, name) {
        topics[first_named(topics, name)].handlers@
    } else {
        Seq::empty()
    }
}

/// The registry that `topics` stand for.
spec fn registry_of(topics: Seq<Topic>) -> Registry {
    Map::total(|name: Seq<char>| under(topics, name))
}

/// Whether no two of `topics` have one name.
spec fn distinct(topics: Seq<Topic>) -> bool {
    forall|i: int, j: int| 0 <= i < j < topics.len() ==> topics[i].name@ != topics[j].name@
}

/// A first topic called `name` is the only first one, and its registrations are
/// those under `name`.
proof fn lemma_first_named(topics: Seq<Topic>, name: Seq<char>, k: int)
    requires
        is_first_named(topics, name, k),
    ensures
        names(topics, name),
        first_named(topics, name) == k,
        under(topics, name) == topics[k].handlers@,
{
    let j = first_named(topics, name);
    assert(is_first_named(topics, name, j));
    if j < k {
        assert(topics[j].name@ != name);
    } else if k < j {
        assert(topics[k].name@ != name);
    }
}

/// Where a topic at `k` is called `name`, some topic is the first to be.
proof fn lemma_some_first_named(topics: Seq<Topic>, name: Seq<char>, k: int)
    requires
        0 <= k < topics.len(),
        topics[k].name@ == name,
    ensures
        is_first_named(topics, name, first_named(topics, name)),
    decreases k,
{
    if exists|j: int| 0 <= j < k && topics[j].name@ == name {
        let j = choose|j: int| 0 <= j < k && topics[j].name@ == name;
        lemma_some_first_named(topics, name, j);
    } else {
        assert(is_first_named(topics, name, k));
    }
}

/// The registrations under `name` are the same in `after` as in `before` where
/// `after` has the topics of `before`, under the same names and perhaps with more
/// behind them, none of the new ones called `name`, and the topics called `name`
/// hold what they held.
proof fn lemma_under_kept(before: Seq<Topic>, after: Seq<Topic>, name: Seq<char>)
    requires
        before.len() <= after.len(),
        forall|i: int| 0 <= i < before.len() ==> after[i].name@ == before[i].name@,
        forall|i: int|
            0 <= i < before.len() && before[i].name@ == name ==> after[i].handlers@
                == before[i].handlers@,
        forall|i: int| before.len() <= i < after.len() ==> after[i].name@ != name,
    ensures
        under(after, name) == under(before, name),
{
    if names(before, name) {
        let k = choose|k: int| 0 <= k < before.len() && before[k].name@ == name;
        lemma_some_first_named(before, name, k);
        let first = first_named(before, name);
        assert(is_first_named(after, name, first));
        lemma_first_named(after, name, first);
    } else {
        if names(after, name) {
            let k = choose|k: int| 0 <= k < after.len() && after[k].name@ == name;
            assert(k < before.len());
            assert(before[k].name@ == name);
        }
    }
}

/// The dispatcher: every name with the handlers registered under it.
///
/// Its view is a [`Registry`]: the map from every name to the registrations under
/// it, in the order in which they were made.
pub struct EventBus {
    topics: Vec<Topic>,
}

impl View for EventBus {
    type V = Registry;

    closed spec fn view(&self) -> Registry {
        registry_of(self.topics@)
    }
}

impl EventBus {
    /// No name is held twice. [`new`](EventBus::new) and [`from`](EventBus::from)
    /// make such a dispatcher, and every method keeps it so.
    pub closed spec fn well_formed(&self) -> bool {
        distinct(self.topics@)
    }

    /// The registry of a dispatcher has an entry for every name.
    pub proof fn lemma_total(self)
        ensures
            is_total(self@),
    {
    }

    /// A dispatcher with nothing registered.
    pub fn new() -> (bus: EventBus)
        ensures
            bus@ == vacant(),
            bus.well_formed(),
    {
        let bus = EventBus { topics: Vec::new() };
        assert(bus@ =~= vacant());
        bus
    }

    /// The position of the first topic called `name`.
    fn find(&self, name: &String) -> (found: Option<usize>)
        ensures
            match found {
                Some(k) => is_first_named(self.topics@, name@, k as int),
                None => !names(self.topics@, name@),
            },
    {
        let mut k: usize = 0;
        while k < self.topics.len()
            invariant
                k <= self.topics.len(),
                forall|j: int| 0 <= j < k ==> self.topics[j].name@ != name@,
            decreases self.topics.len() - k,
        {
            if self.topics[k].name == *name {
                return Some(k);
            }
            k += 1;
        }
        None
    }

    /// Adds `registrations` under `name`, behind those that are there.
    fn add(&mut self, name: String, registrations: Vec<Registration>)
        ensures
            final(self)@ == registered_all(old(self)@, name@, registrations@),
            old(self).well_formed() ==> final(self).well_formed(),
    {
        let ghost before = self.topics@;
        let ghost given = registrations@;
        let mut registrations = registrations;
        match self.find(&name) {
            Some(k) => {
                self.topics[k].handlers.append(&mut registrations);
                proof {
                    let after = self.topics@;
                    lemma_first_named(before, name@, k as int);
                    assert(is_first_named(after, name@, k as int));
                    lemma_first_named(after, name@, k as int);
                    assert forall|other: Seq<char>| other != name@ implies under(after, other)
                        == under(before, other) by {
                        lemma_under_kept(before, after, other);
                    }
                    assert(self@ =~= registered_all(old(self)@, name@, given));
                }
            },
            None => {
                self.topics.push(Topic { name, handlers: registrations });
                proof {
                    let after = self.topics@;
                    let k = before.len() as int;
                    assert(is_first_named(after, name@, k));
                    lemma_first_named(after, name@, k);
                    assert forall|other: Seq<char>| other != name@ implies under(after, other)
                        == under(before, other) by {
                        lemma_under_kept(before, after, other);
                    }
                    assert(under(before, name@) + after[k].handlers@ =~= after[k].handlers@);
                    assert(self@ =~= registered_all(old(self)@, name@, after[k].handlers@));
                }
            },
        }
    }

    /// A dispatcher seeded with `initial`: the registrations of each entry are
    /// added under the entry's name, entry by entry.
    pub fn from(initial: Vec<(String, Vec<Registration>)>) -> (bus: EventBus)
        ensures
            bus@ == seeded(initial@),
            bus.well_formed(),
    {
        let mut bus = EventBus::new();
        assert(initial@.take(0) =~= Seq::empty());
        for entry in it: initial.into_iter()
            invariant
                it.seq() == initial@,
                bus@ == seeded(initial@.take(it.index())),
                bus.well_formed(),
        {
            let ghost seen = initial@.take(it.index() + 1);
            assert(seen.drop_last() =~= initial@.take(it.index()));
            assert(seen.last() == entry);
            let (name, registrations) = entry;
            bus.add(name, registrations);
        }
        assert(initial@.take(initial@.len() as int) =~= initial@);
        bus
    }

    /// Registers `registration` under `name`, behind those that are there.
    pub fn register(&mut self, name: &str, registration: Registration)
        ensures
            final(self)@ == registered(old(self)@, name@, registration),
            old(self).well_formed() ==> final(self).well_formed(),
    {
        let mut one: Vec<Registration> = Vec::new();
        one.push(registration);
        assert(old(self)@[name@] + one@ =~= old(self)@[name@].push(registration));
        self.add(name.to_owned(), one);
    }

    /// The position of the first of `handlers` that carries `tag`.
    fn seek(handlers: &Vec<Registration>, tag: &TypeId) -> (found: Option<usize>)
        ensures
            match found {
                Some(i) => is_first_carrying(handlers@, *tag, i as int),
                None => !carries(handlers@, *tag),
            },
    {
        let mut i: usize = 0;
        while i < handlers.len()
            invariant
                i <= handlers.len(),
                forall|j: int| 0 <= j < i ==> handlers[j].tag != *tag,
            decreases handlers.len() - i,
        {
            if same_tag(&handlers[i].tag, tag) {
                return Some(i);
            }
            i += 1;
        }
        None
    }

    /// Removes the first registration under `name` that carries `tag`. Where
    /// nothing under `name` carries it, nothing changes.
    pub fn unregister(&mut self, name: &str, tag: &TypeId)
        ensures
            final(self)@ == unregistered(old(self)@, name@, *tag),
            old(self).well_formed() ==> final(self).well_formed(),
    {
        let ghost before = self.topics@;
        let key = name.to_owned();
        match self.find(&key) {
            None => {
                assert(self@ =~= unregistered(old(self)@, name@, *tag));
            },
            Some(k) => {
                proof {
                    lemma_first_named(before, name@, k as int);
                }
                match Self::seek(&self.topics[k].handlers, tag) {
                    None => {
                        assert(self@ =~= unregistered(old(self)@, name@, *tag));
                    },
                    Some(i) => {
                        self.topics[k].handlers.remove(i);
                        proof {
                            let after = self.topics@;
                            lemma_first_carrying_is_unique(before[k as int].handlers@, *tag, i as int);
                            assert(is_first_named(after, name@, k as int));
                            lemma_first_named(after, name@, k as int);
                            assert forall|other: Seq<char>| other != name@ implies under(
                                after,
                                other,
                            ) == under(before, other) by {
                                lemma_under_kept(before, after, other);
                            }
                            assert(self@ =~= unregistered(old(self)@, name@, *tag));
                        }
                    },
                }
            },
        }
    }

    /// Registers `subscriber` under `name`, behind the handlers that are there
    /// and beside the tag of its type, which is the tag of every handler of type
    /// `S`. It never fails.
    pub fn subscribe<S: Subscriber + 'static>(&mut self, name: &str, subscriber: S) -> (done:
        Result<(), std::io::Error>)
        ensures
            done is Ok,
            final(self)@ == registered(old(self)@, name@, enrolled(subscriber)),
            is_tag_of::<S>(tag_of(subscriber)),
            old(self).well_formed() ==> final(self).well_formed(),
    {
        self.register(name, Registration::new(subscriber));
        Ok(())
    }

    /// Removes the first handler under `name` that is registered beside the tag
    /// of the type of `subscriber`. [`subscribe`](EventBus::subscribe) registers
    /// every handler beside the tag of its own type, so this is the handler of
    /// that type that was registered first; it need not be equal to `subscriber`
    /// in any other way. Where there is none, or nothing is registered under
    /// `name`, nothing changes. It never fails.
    pub fn unsubscribe<S: Subscriber + 'static>(&mut self, name: &str, subscriber: S) -> (done:
        Result<(), std::io::Error>)
        ensures
            done is Ok,
            final(self)@ == unregistered(old(self)@, name@, tag_of(subscriber)),
            is_tag_of::<S>(tag_of(subscriber)),
            old(self).well_formed() ==> final(self).well_formed(),
    {
        let tag = tag_of_type::<S>();
        assert(tag == tag_of(subscriber));
        self.unregister(name, &tag);
        Ok(())
    }

    /// Registers each of `subscribers` under `name`, in their order: the same as
    /// a call of [`subscribe`](EventBus::subscribe) for each.
    pub fn subscribe_all<S: Subscriber + 'static>(&mut self, name: &str, subscribers: Vec<S>) -> (done:
        Result<(), std::io::Error>)
        ensures
            done is Ok,
            final(self)@ == registered_all(old(self)@, name@, enrolled_all(subscribers@)),
            forall|i: int| 0 <= i < subscribers.len() ==> is_tag_of::<S>(tag_of(subscribers[i])),
            old(self).well_formed() ==> final(self).well_formed(),
    {
        proof {
            assert(enrolled_all(subscribers@.take(0)) =~= Seq::empty());
            assert(self@[name@] + Seq::<Registration>::empty() =~= self@[name@]);
            assert(self@ =~= registered_all(old(self)@, name@, Seq::empty()));
        }
        for subscriber in it: subscribers.into_iter()
            invariant
                it.seq() == subscribers@,
                self@ == registered_all(
                    old(self)@,
                    name@,
                    enrolled_all(subscribers@.take(it.index())),
                ),
                it.index() > 0 ==> is_tag_of::<S>(tag_of(subscribers[0])),
                old(self).well_formed() ==> self.well_formed(),
        {
            let ghost so_far = enrolled_all(subscribers@.take(it.index()));
            match self.subscribe(name, subscriber) {
                Ok(()) => {},
                Err(failure) => {
                    return Err(failure);
                },
            }
            proof {
                assert(enrolled_all(subscribers@.take(it.index() + 1)) =~= so_far.push(
                    enrolled(subscriber),
                ));
                assert((old(self)@[name@] + so_far).push(enrolled(subscriber)) =~= old(self)@[name@]
                    + so_far.push(enrolled(subscriber)));
                assert(self@ =~= registered_all(
                    old(self)@,
                    name@,
                    so_far.push(enrolled(subscriber)),
                ));
            }
        }
        assert(subscribers@.take(subscribers@.len() as int) =~= subscribers@);
        Ok(())
    }

    /// Makes one removal under `name` for each of `subscribers`, by the tag of its
    /// type: the same as a call of [`unsubscribe`](EventBus::unsubscribe) for
    /// each.
    pub fn unsubscribe_all<S: Subscriber + 'static>(
        &mut self,
        name: &str,
        subscribers: Vec<S>,
    ) -> (done: Result<(), std::io::Error>)
        ensures
            done is Ok,
            final(self)@ == unregistered_all(old(self)@, name@, tags_of(subscribers@)),
            forall|i: int| 0 <= i < subscribers.len() ==> is_tag_of::<S>(tag_of(subscribers[i])),
            old(self).well_formed() ==> final(self).well_formed(),
    {
        assert(tags_of(subscribers@.take(0)) =~= Seq::empty());
        for subscriber in it: subscribers.into_iter()
            invariant
                it.seq() == subscribers@,
                self@ == unregistered_all(
                    old(self)@,
                    name@,
                    tags_of(subscribers@.take(it.index())),
                ),
                it.index() > 0 ==> is_tag_of::<S>(tag_of(subscribers[0])),
                old(self).well_formed() ==> self.well_formed(),
        {
            let ghost so_far = tags_of(subscribers@.take(it.index()));
            match self.unsubscribe(name, subscriber) {
                Ok(()) => {},
                Err(failure) => {
                    return Err(failure);
                },
            }
            proof {
                let next = tags_of(subscribers@.take(it.index() + 1));
                assert(next.drop_last() =~= so_far);
                assert(next.last() == tag_of(subscriber));
            }
        }
        assert(subscribers@.take(subscribers@.len() as int) =~= subscribers@);
        Ok(())
    }

    /// Hands `event` to each handler registered under its name, in the order of
    /// registration, and stops at the first that fails.
    ///
    /// Each handler that is reached is called once, with `event`. The post is
    /// `Ok` when every handler answered `Ok`, and so whenever nothing is
    /// registered under the name. Where a handler fails, the post ends with its
    /// failure and its position, and the handlers behind it are not called.
    pub fn post(&mut self, event: Event) -> (outcome: Result<(), PostFailure>)
        ensures
            posted(old(self)@, final(self)@, event, outcome),
            old(self)@[event@].len() == 0 ==> outcome is Ok && final(self)@ == old(self)@,
            old(self).well_formed() ==> final(self).well_formed(),
    {
        let ghost before = self.topics@;
        let key = event.name().to_owned();
        match self.find(&key) {
            None => {
                assert(self@ =~= old(self)@);
                Ok(())
            },
            Some(k) => {
                let n: usize = self.topics[k].handlers.len();
                let mut i: usize = 0;
                while i < n
                    invariant
                        i <= n,
                        before == old(self).topics@,
                        n == before[k as int].handlers.len(),
                        is_first_named(before, event@, k as int),
                        called(before, self.topics@, event, k as int, i as int, None),
                    decreases n - i,
                {
                    let answer = self.topics[k].handlers[i].handler.boxed.call(&event);
                    match PostFailure::after(i, answer) {
                        Ok(()) => {
                            // The handler answered the one `Ok` that there is.
                            assert(answer->Ok_0 == ());
                        },
                        Err(failure) => {
                            proof {
                                lemma_called(
                                    before,
                                    self.topics@,
                                    event,
                                    k as int,
                                    i as int,
                                    Some(failure.cause),
                                );
                            }
                            return Err(failure);
                        },
                    }
                    i += 1;
                }
                proof {
                    lemma_called(before, self.topics@, event, k as int, n as int, None);
                    if n == 0 {
                        assert(self@[event@] =~= old(self)@[event@]);
                        assert(self@ =~= old(self)@);
                    }
                }
                Ok(())
            },
        }
    }
}

/// How the topics stand in the course of a post of `event`. No name has changed,
/// nor any topic but the one at `k`. Of its handlers the first `done` were called
/// once each and answered `Ok`. Where `failed` holds a failure, the next one was
/// called once and answered with it. All behind those are what they were.
spec fn called(
    before: Seq<Topic>,
    now: Seq<Topic>,
    event: Event,
    k: int,
    done: int,
    failed: Option<std::io::Error>,
) -> bool {
    let held = before[k].handlers;
    let left = now[k].handlers;
    let reached = if failed is Some {
        done + 1
    } else {
        done
    };
    &&& now.len() == before.len()
    &&& 0 <= k < before.len()
    &&& 0 <= done <= reached <= held.len()
    &&& forall|t: int| 0 <= t < before.len() ==> now[t].name == before[t].name
    &&& forall|t: int| 0 <= t < before.len() && t != k ==> now[t].handlers == before[t].handlers
    &&& left.len() == held.len()
    &&& forall|j: int| 0 <= j < done ==> answered(held[j], event, Ok(()), left[j])
    &&& failed matches Some(cause) ==> answered(held[done], event, Err(cause), left[done])
    &&& forall|j: int| reached <= j < held.len() ==> left[j] == held[j]
}

/// What the topics at the end of a post mean for the registries before and after
/// it: the post ends at a failure, or when all handlers were called.
proof fn lemma_called(
    before: Seq<Topic>,
    now: Seq<Topic>,
    event: Event,
    k: int,
    done: int,
    failed: Option<std::io::Error>,
)
    requires
        is_first_named(before, event@, k),
        called(before, now, event, k, done, failed),
        failed is None ==> done == before[k].handlers.len(),
        done <= usize::MAX,
    ensures
        posted(
            registry_of(before),
            registry_of(now),
            event,
            match failed {
                Some(cause) => Err(PostFailure { position: done as usize, cause }),
                None => Ok(()),
            },
        ),
        registry_of(before)[event@] == before[k].handlers@,
        registry_of(now)[event@] == now[k].handlers@,
        distinct(before) ==> distinct(now),
{
    let name = event@;
    lemma_first_named(before, name, k);
    assert(is_first_named(now, name, k));
    lemma_first_named(now, name, k);
    assert forall|other: Seq<char>| other != name implies under(now, other) == under(
        before,
        other,
    ) by {
        lemma_under_kept(before, now, other);
    }
}

} // verus!
