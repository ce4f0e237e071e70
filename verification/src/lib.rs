//! An in-process publish/subscribe registry.
//!
//! Named events hold ordered lists of listeners; `emit` synchronously invokes
//! every listener registered under a name, in registration order, with the
//! event's name and a payload. Registrations are bounded by a configurable
//! cap (`0` means uncapped), one-shot listeners are removed after their first
//! invocation, and dispatch iterates over a snapshot of the listeners present
//! when `emit` began.

use vstd::prelude::*;

pub mod laws;
pub mod listener;

use crate::listener::Invocation;
use crate::listener::Listener;
use crate::listener::ListenerCallback;
use crate::listener::ListenerTypes;
use crate::listener::invocations;
use crate::listener::persistent_only;

verus! {

/// Registration failed.
#[derive(Clone, Copy, Debug, PartialEq, Eq, Structural)]
pub enum RegistrationError {
    /// The event already holds as many listeners as the cap allows.
    MaxListenersExceeded,
}

/// Dispatch or lookup failed.
#[derive(Clone, Copy, Debug, PartialEq, Eq, Structural)]
pub enum EmitError {
    /// The named event was never registered.
    UnknownEvent,
}

/// A named event and its listeners, in registration order.
pub struct Event {
    /// Event name; unique within a registry.
    pub name: String,
    /// Event listeners; dispatch order is this order.
    pub data: Vec<Listener>,
}

/// The event registry: a mapping from event name to its listeners, and a
/// shared cap on how many listeners one event may hold.
pub struct EventListener {
    /// All events, in the order their names were first registered.
    pub events: Vec<Event>,
    max_listeners: usize,
    history: Ghost<Seq<Invocation>>,
}

impl View for EventListener {
    type V = Seq<Event>;

    /// The registry's entries, in the order their names were first registered.
    closed spec fn view(&self) -> Seq<Event> {
        self.events@
    }
}

impl EventListener {
    /// Well-formedness: event names are unique within the registry.
    pub open spec fn wf(self) -> bool {
        forall|i: int, j: int| 0 <= i < j < self@.len() ==> self@[i].name@ != self@[j].name@
    }

    /// Whether an entry for `name` exists (it may hold zero listeners).
    pub open spec fn has_event(self, name: Seq<char>) -> bool {
        exists|i: int| 0 <= i < self@.len() && self@[i].name@ == name
    }

    /// The index of the entry for `name`; meaningful only when `has_event(name)`.
    pub open spec fn event_index(self, name: Seq<char>) -> int {
        choose|i: int| 0 <= i < self@.len() && self@[i].name@ == name
    }

    /// The event names, in entry order.
    pub open spec fn names(self) -> Seq<Seq<char>> {
        self@.map(|i: int, e: Event| e.name@)
    }

    /// The listeners recorded under `name`, in registration order;
    /// meaningful only when `has_event(name)`.
    pub open spec fn listeners(self, name: Seq<char>) -> Seq<Listener> {
        self@[self.event_index(name)].data@
    }

    /// The listeners under `name`, or the empty sequence when no entry exists.
    pub open spec fn listeners_or_empty(self, name: Seq<char>) -> Seq<Listener> {
        if self.has_event(name) {
            self.listeners(name)
        } else {
            Seq::<Listener>::empty()
        }
    }

    /// How many listeners an entry for `name` holds; zero when no entry exists.
    pub open spec fn listener_count(self, name: Seq<char>) -> nat {
        self.listeners_or_empty(name).len()
    }

    /// The configured cap; `0` means uncapped.
    pub closed spec fn cap(self) -> usize {
        self.max_listeners
    }

    /// Every invocation this registry has performed, oldest first.
    pub closed spec fn hist(self) -> Seq<Invocation> {
        self.history@
    }
}

/// Whether a registration under `name` is admitted: the cap is `0`
/// (uncapped), or the event's current listener count is below the cap.
pub open spec fn can_register(r: EventListener, name: Seq<char>) -> bool {
    r.cap() == 0 || r.listener_count(name) < r.cap()
}

/// How a successful registration changes the registry: the listener is
/// appended under `name` (the entry is created if absent, at the end of the
/// entry order), and nothing else changes.
pub open spec fn registered(pre: EventListener, post: EventListener, name: Seq<char>, l: Listener) -> bool {
    &&& post.cap() == pre.cap()
    &&& post.hist() == pre.hist()
    &&& post.names() == (if pre.has_event(name) {
        pre.names()
    } else {
        pre.names().push(name)
    })
    &&& post.has_event(name)
    &&& post.listeners(name) == pre.listeners_or_empty(name).push(l)
    &&& (forall|m: Seq<char>| m != name ==> (#[trigger] post.has_event(m) <==> pre.has_event(m)))
    &&& (forall|m: Seq<char>|
        m != name && pre.has_event(m) ==> #[trigger] post.listeners(m) == pre.listeners(m))
}

/// How a successful dispatch under `name` with payload `data` changes the
/// registry: every listener present at entry is invoked once, in order, with
/// `(name, data)`; the one-shot listeners among them are removed; and nothing
/// else changes.
pub open spec fn dispatched(pre: EventListener, post: EventListener, name: Seq<char>, data: Seq<char>) -> bool {
    &&& pre.has_event(name)
    &&& post.cap() == pre.cap()
    &&& post.names() == pre.names()
    &&& post.has_event(name)
    &&& post.listeners(name) == persistent_only(pre.listeners(name))
    &&& (forall|m: Seq<char>| m != name ==> (#[trigger] post.has_event(m) <==> pre.has_event(m)))
    &&& (forall|m: Seq<char>|
        m != name && pre.has_event(m) ==> #[trigger] post.listeners(m) == pre.listeners(m))
    &&& post.hist() == pre.hist() + invocations(name, data, pre.listeners(name))
}

/// How a successful removal under `name` changes the registry: the entry
/// stays, its listener list becomes empty, and nothing else changes.
pub open spec fn cleared(pre: EventListener, post: EventListener, name: Seq<char>) -> bool {
    &&& pre.has_event(name)
    &&& post.cap() == pre.cap()
    &&& post.hist() == pre.hist()
    &&& post.names() == pre.names()
    &&& post.has_event(name)
    &&& post.listeners(name) == Seq::<Listener>::empty()
    &&& (forall|m: Seq<char>| m != name ==> (#[trigger] post.has_event(m) <==> pre.has_event(m)))
    &&& (forall|m: Seq<char>|
        m != name && pre.has_event(m) ==> #[trigger] post.listeners(m) == pre.listeners(m))
}

/// In a well-formed registry, the entry at index `i` is the one that
/// `event_index` finds for its name.
proof fn lemma_index_determines(r: EventListener, i: int)
    requires
        r.wf(),
        0 <= i < r@.len(),
    ensures
        r.has_event(r@[i].name@),
        r.event_index(r@[i].name@) == i,
{
    let name = r@[i].name@;
    assert(r.has_event(name));
    let k = r.event_index(name);
    assert(0 <= k < r@.len() && r@[k].name@ == name);
    if k != i {
        assert(r@[i].name@ != r@[k].name@);
    }
}

/// Replacing the entry at index `i` by one with the same name leaves the
/// name structure intact: well-formedness, the entry order, and every other
/// entry's listeners are unchanged.
proof fn lemma_entry_update(pre: EventListener, post: EventListener, i: int)
    requires
        pre.wf(),
        0 <= i < pre@.len(),
        post@.len() == pre@.len(),
        forall|j: int| 0 <= j < pre@.len() && j != i ==> post@[j] == pre@[j],
        post@[i].name@ == pre@[i].name@,
    ensures
        post.wf(),
        post.names() == pre.names(),
        pre.has_event(pre@[i].name@),
        pre.event_index(pre@[i].name@) == i,
        post.has_event(pre@[i].name@),
        post.event_index(pre@[i].name@) == i,
        post.listeners(pre@[i].name@) == post@[i].data@,
        pre.listeners(pre@[i].name@) == pre@[i].data@,
        forall|m: Seq<char>| #[trigger] post.has_event(m) <==> pre.has_event(m),
        forall|m: Seq<char>|
            pre.has_event(m) && m != pre@[i].name@ ==> #[trigger] post.listeners(m) == pre.listeners(m),
{
    assert(forall|j: int| 0 <= j < post@.len() ==> post@[j].name@ == pre@[j].name@);
    assert(post.wf());
    assert(post.names() =~= pre.names());
    lemma_index_determines(pre, i);
    lemma_index_determines(post, i);
    assert forall|m: Seq<char>| #[trigger] post.has_event(m) <==> pre.has_event(m) by {
        if post.has_event(m) {
            let k = post.event_index(m);
            assert(pre@[k].name@ == m);
            assert(pre.has_event(m));
        }
        if pre.has_event(m) {
            let k = pre.event_index(m);
            assert(post@[k].name@ == m);
            assert(post.has_event(m));
        }
    }
    assert forall|m: Seq<char>|
        pre.has_event(m) && m != pre@[i].name@ implies #[trigger] post.listeners(m) == pre.listeners(m) by {
        let k = pre.event_index(m);
        lemma_index_determines(pre, k);
        lemma_index_determines(post, k);
        assert(k != i);
        assert(post@[k] == pre@[k]);
    }
}

/// Appending a fresh entry leaves every existing entry in place and keeps
/// the registry well-formed.
proof fn lemma_entry_push(pre: EventListener, post: EventListener, name: Seq<char>)
    requires
        pre.wf(),
        !pre.has_event(name),
        post@.len() == pre@.len() + 1,
        forall|j: int| 0 <= j < pre@.len() ==> post@[j] == pre@[j],
        post@[pre@.len() as int].name@ == name,
    ensures
        post.wf(),
        post.names() == pre.names().push(name),
        post.has_event(name),
        post.event_index(name) == pre@.len(),
        post.listeners(name) == post@[pre@.len() as int].data@,
        forall|m: Seq<char>| m != name ==> (#[trigger] post.has_event(m) <==> pre.has_event(m)),
        forall|m: Seq<char>|
            pre.has_event(m) ==> #[trigger] post.listeners(m) == pre.listeners(m),
{
    let n = pre@.len() as int;
    assert(forall|j: int| 0 <= j < n ==> post@[j].name@ == pre@[j].name@);
    assert forall|i: int, j: int| 0 <= i < j < post@.len() implies post@[i].name@ != post@[j].name@ by {
        if j < n {
            assert(pre@[i].name@ != pre@[j].name@);
        } else {
            if post@[i].name@ == name {
                assert(pre.has_event(name));
            }
        }
    }
    assert(post.names() =~= pre.names().push(name));
    lemma_index_determines(post, n);
    assert forall|m: Seq<char>| m != name implies (#[trigger] post.has_event(m) <==> pre.has_event(m)) by {
        if post.has_event(m) {
            let k = post.event_index(m);
            assert(k != n);
            assert(pre@[k].name@ == m);
            assert(pre.has_event(m));
        }
        if pre.has_event(m) {
            let k = pre.event_index(m);
            assert(post@[k].name@ == m);
            assert(post.has_event(m));
        }
    }
    assert forall|m: Seq<char>| pre.has_event(m) implies #[trigger] post.listeners(m) == pre.listeners(m) by {
        let k = pre.event_index(m);
        lemma_index_determines(pre, k);
        lemma_index_determines(post, k);
    }
}

impl EventListener {
    /// Create a registry holding the two reserved event entries, both empty,
    /// with a cap of 10 listeners per event.
    pub fn new() -> (r: EventListener)
        ensures
            r.wf(),
            r.cap() == 10,
            r.hist() == Seq::<Invocation>::empty(),
            r@.len() == 2,
            r@[0].name@ == "newListener"@,
            r@[1].name@ == "removeListener"@,
            r@[0].data@ == Seq::<Listener>::empty(),
            r@[1].data@ == Seq::<Listener>::empty(),
            r.has_event("newListener"@),
            r.has_event("removeListener"@),
    {
        let mut events: Vec<Event> = Vec::new();
        events.push(Event { name: "newListener".to_owned(), data: Vec::new() });
        events.push(Event { name: "removeListener".to_owned(), data: Vec::new() });
        let r = EventListener { events, max_listeners: 10, history: Ghost(Seq::empty()) };
        proof {
            reveal_strlit("newListener");
            reveal_strlit("removeListener");
            assert(r@[0].name@ == "newListener"@);
            assert(r@[1].name@ == "removeListener"@);
        }
        r
    }

    /// Set the cap on listeners per event; `0` means uncapped. Takes effect
    /// on subsequent registrations only.
    pub fn set_max_listeners(&mut self, max_listeners: usize)
        ensures
            final(self)@ == old(self)@,
            final(self).cap() == max_listeners,
            final(self).hist() == old(self).hist(),
    {
        self.max_listeners = max_listeners;
    }

    /// The current cap on listeners per event; `0` means uncapped.
    pub fn get_max_listeners(&self) -> (r: usize)
        ensures
            r == self.cap(),
    {
        self.max_listeners
    }

    /// The index of the entry named `name`, if one exists.
    fn find_event(&self, name: &String) -> (r: Option<usize>)
        requires
            self.wf(),
        ensures
            match r {
                Some(i) => {
                    &&& i < self@.len()
                    &&& self@[i as int].name@ == name@
                    &&& self.has_event(name@)
                    &&& self.event_index(name@) == i as int
                },
                None => !self.has_event(name@),
            },
    {
        let mut i: usize = 0;
        while i < self.events.len()
            invariant
                self.wf(),
                i <= self@.len(),
                forall|j: int| 0 <= j < i ==> self@[j].name@ != name@,
            decreases self@.len() - i,
        {
            if self.events[i].name == *name {
                proof {
                    lemma_index_determines(*self, i as int);
                }
                return Some(i);
            }
            i += 1;
        }
        None
    }

    /// Append a listener under `name`, creating the entry if absent;
    /// reject the registration when the entry is full.
    fn register(&mut self, name: &str, l: Listener) -> (r: Result<(), RegistrationError>)
        requires
            old(self).wf(),
        ensures
            final(self).wf(),
            r is Ok <==> can_register(*old(self), name@),
            r is Ok ==> registered(*old(self), *final(self), name@, l),
            r is Ok ==> final(self).listener_count(name@) == old(self).listener_count(name@) + 1,
            r is Err ==> *final(self) == *old(self) && r == Err::<(), RegistrationError>(
                RegistrationError::MaxListenersExceeded,
            ),
    {
        let ghost pre = *self;
        let name_s: String = name.to_owned();
        match self.find_event(&name_s) {
            Some(i) => {
                if self.max_listeners == 0 || self.events[i].data.len() < self.max_listeners {
                    let mut entry = self.events.remove(i);
                    entry.data.push(l);
                    self.events.insert(i, entry);
                    proof {
                        assert forall|j: int| 0 <= j < pre@.len() && j != i implies self@[j]
                            == pre@[j] by {
                            assert(self@ == pre@.remove(i as int).insert(i as int, self@[i as int]));
                        }
                        lemma_entry_update(pre, *self, i as int);
                    }
                    Ok(())
                } else {
                    proof {
                        lemma_index_determines(pre, i as int);
                    }
                    Err(RegistrationError::MaxListenersExceeded)
                }
            },
            None => {
                let mut data: Vec<Listener> = Vec::new();
                data.push(l);
                self.events.push(Event { name: name_s, data });
                proof {
                    assert(self@[pre@.len() as int].name@ == name@);
                    lemma_entry_push(pre, *self, name@);
                    assert(self.listeners(name@) =~= pre.listeners_or_empty(name@).push(l));
                }
                Ok(())
            },
        }
    }

    /// Register a listener invoked on every emit of `name`, creating the
    /// event entry if absent. Fails with `MaxListenersExceeded`, leaving the
    /// registry unchanged, when the cap is non-zero and the entry is full.
    pub fn on(&mut self, name: &str, callback: ListenerCallback) -> (r: Result<(), RegistrationError>)
        requires
            old(self).wf(),
        ensures
            final(self).wf(),
            r is Ok <==> can_register(*old(self), name@),
            r is Ok ==> registered(
                *old(self),
                *final(self),
                name@,
                (Listener { rtype: ListenerTypes::On, callback }),
            ),
            r is Ok ==> final(self).listener_count(name@) == old(self).listener_count(name@) + 1,
            r is Err ==> *final(self) == *old(self) && r == Err::<(), RegistrationError>(
                RegistrationError::MaxListenersExceeded,
            ),
    {
        self.register(name, Listener { rtype: ListenerTypes::On, callback })
    }

    /// Register a listener invoked only on the first emit of `name` after
    /// registration, creating the event entry if absent. Same cap semantics
    /// as `on`.
    pub fn once(&mut self, name: &str, callback: ListenerCallback) -> (r: Result<
        (),
        RegistrationError,
    >)
        requires
            old(self).wf(),
        ensures
            final(self).wf(),
            r is Ok <==> can_register(*old(self), name@),
            r is Ok ==> registered(
                *old(self),
                *final(self),
                name@,
                (Listener { rtype: ListenerTypes::Once, callback }),
            ),
            r is Ok ==> final(self).listener_count(name@) == old(self).listener_count(name@) + 1,
            r is Err ==> *final(self) == *old(self) && r == Err::<(), RegistrationError>(
                RegistrationError::MaxListenersExceeded,
            ),
    {
        self.register(name, Listener { rtype: ListenerTypes::Once, callback })
    }

    /// A read-only view of every event entry, in entry order.
    pub fn get_events(&self) -> (r: Vec<&Event>)
        ensures
            r@.len() == self@.len(),
            forall|i: int| 0 <= i < r@.len() ==> *r@[i] == self@[i],
    {
        let mut r: Vec<&Event> = Vec::new();
        let mut i: usize = 0;
        while i < self.events.len()
            invariant
                i <= self@.len(),
                r@.len() == i,
                forall|j: int| 0 <= j < i ==> *r@[j] == self@[j],
            decreases self@.len() - i,
        {
            r.push(&self.events[i]);
            i += 1;
        }
        r
    }

    /// The event names, in entry order.
    pub fn get_event_names(&self) -> (r: Vec<String>)
        ensures
            r@.len() == self.names().len(),
            forall|i: int| 0 <= i < r@.len() ==> r@[i]@ == self.names()[i],
    {
        let mut r: Vec<String> = Vec::new();
        let mut i: usize = 0;
        while i < self.events.len()
            invariant
                i <= self@.len(),
                r@.len() == i,
                forall|j: int| 0 <= j < i ==> r@[j]@ == self@[j].name@,
            decreases self@.len() - i,
        {
            r.push(self.events[i].name.clone());
            i += 1;
        }
        r
    }

    /// A read-only view of the listeners under `name`, in registration
    /// order. Fails with `UnknownEvent` when no entry for `name` exists.
    pub fn get_listeners(&self, name: &str) -> (r: Result<Vec<&Listener>, EmitError>)
        requires
            self.wf(),
        ensures
            r is Ok <==> self.has_event(name@),
            (r matches Ok(v) ==> v@.len() == self.listeners(name@).len() && (forall|k: int|
                0 <= k < v@.len() ==> *v@[k] == self.listeners(name@)[k])),
            r is Err ==> r == Err::<Vec<&Listener>, EmitError>(EmitError::UnknownEvent),
    {
        let name_s: String = name.to_owned();
        match self.find_event(&name_s) {
            None => Err(EmitError::UnknownEvent),
            Some(i) => {
                let mut out: Vec<&Listener> = Vec::new();
                let mut k: usize = 0;
                while k < self.events[i].data.len()
                    invariant
                        i < self@.len(),
                        k <= self@[i as int].data@.len(),
                        out@.len() == k,
                        forall|t: int| 0 <= t < k ==> *out@[t] == self@[i as int].data@[t],
                    decreases self@[i as int].data@.len() - k,
                {
                    out.push(&self.events[i].data[k]);
                    k += 1;
                }
                Ok(out)
            },
        }
    }

    /// Empty the listener list under `name`, keeping the (now empty) entry,
    /// and report whether an entry existed. When none does, the registry is
    /// left unchanged.
    pub fn remove_all_listeners(&mut self, name: &str) -> (r: bool)
        requires
            old(self).wf(),
        ensures
            final(self).wf(),
            r == old(self).has_event(name@),
            r ==> cleared(*old(self), *final(self), name@),
            !r ==> *final(self) == *old(self),
    {
        let ghost pre = *self;
        let name_s: String = name.to_owned();
        match self.find_event(&name_s) {
            None => false,
            Some(i) => {
                let mut entry = self.events.remove(i);
                entry.data = Vec::new();
                self.events.insert(i, entry);
                proof {
                    assert forall|j: int| 0 <= j < pre@.len() && j != i implies self@[j]
                        == pre@[j] by {
                        assert(self@ == pre@.remove(i as int).insert(i as int, self@[i as int]));
                    }
                    lemma_entry_update(pre, *self, i as int);
                }
                true
            },
        }
    }

    /// Dispatch `name`: invoke every listener recorded under `name` at the
    /// moment of the call, in registration order, passing the event name and
    /// `data` to each; then drop the one-shot listeners among them. A
    /// listener registered during the dispatch is not invoked until the next
    /// emit. Fails with `UnknownEvent`, invoking nothing, when no entry for
    /// `name` exists.
    pub fn emit(&mut self, name: &str, data: String) -> (r: Result<(), EmitError>)
        requires
            old(self).wf(),
        ensures
            final(self).wf(),
            r is Ok <==> old(self).has_event(name@),
            r is Ok ==> dispatched(*old(self), *final(self), name@, data@),
            r is Err ==> *final(self) == *old(self) && r == Err::<(), EmitError>(
                EmitError::UnknownEvent,
            ),
    {
        let ghost pre = *self;
        let name_s: String = name.to_owned();
        match self.find_event(&name_s) {
            None => Err(EmitError::UnknownEvent),
            Some(i) => {
                let entry = self.events.remove(i);
                let Event { name: entry_name, data: mut snapshot } = entry;
                let ghost orig = snapshot@;
                let ghost hist0 = self.history@;
                let mut kept: Vec<Listener> = Vec::new();
                while snapshot.len() > 0
                    invariant
                        snapshot@.len() <= orig.len(),
                        snapshot@ == orig.skip(orig.len() - snapshot@.len()),
                        kept@ == persistent_only(orig.take(orig.len() - snapshot@.len())),
                        self.history@ == hist0 + invocations(
                            name@,
                            data@,
                            orig.take(orig.len() - snapshot@.len()),
                        ),
                        self.events@ == pre@.remove(i as int),
                        self.max_listeners == pre.cap(),
                    decreases snapshot@.len(),
                {
                    let ghost done = orig.len() - snapshot@.len();
                    let l = snapshot.remove(0);
                    proof {
                        assert(l == orig[done]);
                        assert(snapshot@ =~= orig.skip(done + 1));
                        assert(orig.take(done + 1).drop_last() =~= orig.take(done));
                        assert(orig.take(done + 1).last() == l);
                    }
                    l.callback.call(name_s.clone(), data.clone());
                    self.history = Ghost(
                        self.history@.push(Invocation { name: name@, data: data@, listener: l }),
                    );
                    if matches!(l.rtype, ListenerTypes::On) {
                        kept.push(l);
                    }
                    proof {
                        reveal_with_fuel(persistent_only, 2);
                        assert(kept@ == persistent_only(orig.take(done + 1)));
                        assert(self.history@ =~= hist0 + invocations(name@, data@, orig.take(done + 1)));
                    }
                }
                self.events.insert(i, Event { name: entry_name, data: kept });
                proof {
                    assert(orig.take(orig.len() as int) =~= orig);
                    assert forall|j: int| 0 <= j < pre@.len() && j != i implies self@[j]
                        == pre@[j] by {
                        assert(self@ == pre@.remove(i as int).insert(i as int, self@[i as int]));
                    }
                    lemma_entry_update(pre, *self, i as int);
                }
                Ok(())
            },
        }
    }
}

} // verus!
