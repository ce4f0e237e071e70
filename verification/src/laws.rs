//! The registry's dispatch laws, proved once and for all over the transition
//! predicates that the registry's methods ensure (`registered`, `dispatched`,
//! `cleared`): how often a listener is invoked, in which order, and when not
//! at all.

use vstd::prelude::*;

use crate::EventListener;
use crate::can_register;
use crate::cleared;
use crate::dispatched;
use crate::registered;
use crate::listener::Invocation;
use crate::listener::Listener;
use crate::listener::invocations;
use crate::listener::is_persistent;
use crate::listener::persistent_only;

verus! {

/// How many of the invocations in `h` invoked the listener `l`.
pub open spec fn times_invoked(h: Seq<Invocation>, l: Listener) -> nat
    decreases h.len(),
{
    if h.len() == 0 {
        0
    } else {
        times_invoked(h.drop_last(), l) + (if h.last().listener == l {
            1nat
        } else {
            0nat
        })
    }
}

/// How often the listener `l` occurs in `ls`.
pub open spec fn occurrences(ls: Seq<Listener>, l: Listener) -> nat
    decreases ls.len(),
{
    if ls.len() == 0 {
        0
    } else {
        occurrences(ls.drop_last(), l) + (if ls.last() == l {
            1nat
        } else {
            0nat
        })
    }
}

/// One dispatch over `ls` invokes each listener as often as it occurs in `ls`.
proof fn lemma_times_invoked_invocations(name: Seq<char>, data: Seq<char>, ls: Seq<Listener>, l: Listener)
    ensures
        times_invoked(invocations(name, data, ls), l) == occurrences(ls, l),
    decreases ls.len(),
{
    let invs = invocations(name, data, ls);
    if ls.len() == 0 {
        assert(invs.len() == 0);
    } else {
        let prefix = ls.drop_last();
        lemma_times_invoked_invocations(name, data, prefix, l);
        assert(invs.drop_last() =~= invocations(name, data, prefix));
        assert(invs.last() == (Invocation { name, data, listener: ls.last() }));
    }
}

/// A listener that does not occur in `ls` occurs zero times in it.
proof fn lemma_occurrences_absent(ls: Seq<Listener>, l: Listener)
    requires
        !ls.contains(l),
    ensures
        occurrences(ls, l) == 0,
    decreases ls.len(),
{
    if ls.len() > 0 {
        let prefix = ls.drop_last();
        assert forall|i: int| 0 <= i < prefix.len() implies prefix[i] != l by {
            assert(ls[i] == prefix[i]);
        }
        assert(!prefix.contains(l));
        lemma_occurrences_absent(prefix, l);
        assert(ls.last() != l) by {
            assert(ls[ls.len() - 1] == ls.last());
        }
    }
}

/// Appending a listener raises its occurrence count by one.
proof fn lemma_occurrences_push(ls: Seq<Listener>, l: Listener)
    ensures
        occurrences(ls.push(l), l) == occurrences(ls, l) + 1,
{
    assert(ls.push(l).drop_last() =~= ls);
    assert(ls.push(l).last() == l);
}

/// Dropping the one-shot listeners keeps every persistent listener's
/// occurrence count and removes all others.
proof fn lemma_persistent_only_excludes(ls: Seq<Listener>, l: Listener)
    requires
        !ls.contains(l),
    ensures
        !persistent_only(ls).contains(l),
    decreases ls.len(),
{
    if ls.len() > 0 {
        let prefix = ls.drop_last();
        assert forall|i: int| 0 <= i < prefix.len() implies prefix[i] != l by {
            assert(ls[i] == prefix[i]);
        }
        assert(!prefix.contains(l));
        lemma_persistent_only_excludes(prefix, l);
        assert(ls.last() != l) by {
            assert(ls[ls.len() - 1] == ls.last());
        }
        if is_persistent(ls.last()) {
            let out = persistent_only(prefix).push(ls.last());
            assert(persistent_only(ls) == out);
            assert forall|i: int| 0 <= i < out.len() implies out[i] != l by {
                if i < out.len() - 1 {
                    assert(out[i] == persistent_only(prefix)[i]);
                    assert(persistent_only(prefix).contains(persistent_only(prefix)[i]));
                }
            }
        }
    }
}

/// Dropping the one-shot listeners from a list that ends in a one-shot
/// listener drops exactly that last listener.
proof fn lemma_persistent_only_drops_once(ls: Seq<Listener>, l: Listener)
    requires
        !is_persistent(l),
    ensures
        persistent_only(ls.push(l)) == persistent_only(ls),
{
    assert(ls.push(l).drop_last() =~= ls);
    assert(ls.push(l).last() == l);
}

/// Registering then emitting: a listener registered under `n` and not
/// already present there is invoked by the following emit of `n` exactly
/// once, with the event name `n` and the payload `p`, after every listener
/// registered before it.
pub proof fn lemma_register_then_emit(
    r0: EventListener,
    r1: EventListener,
    r2: EventListener,
    n: Seq<char>,
    cb: Listener,
    p: Seq<char>,
)
    requires
        !r0.listeners_or_empty(n).contains(cb),
        registered(r0, r1, n, cb),
        dispatched(r1, r2, n, p),
    ensures
        r2.hist() == r1.hist() + invocations(n, p, r1.listeners(n)),
        times_invoked(invocations(n, p, r1.listeners(n)), cb) == 1,
        invocations(n, p, r1.listeners(n)).last() == (Invocation { name: n, data: p, listener: cb }),
{
    let ls0 = r0.listeners_or_empty(n);
    let ls1 = r1.listeners(n);
    lemma_times_invoked_invocations(n, p, ls1, cb);
    lemma_occurrences_push(ls0, cb);
    lemma_occurrences_absent(ls0, cb);
    assert(invocations(n, p, ls1)[ls1.len() - 1] == (Invocation { name: n, data: p, listener: cb }));
}

/// Once-semantics: a one-shot listener registered under `n` and not already
/// present there is invoked exactly once by the first following emit of `n`,
/// and not at all by the one after it.
pub proof fn lemma_once_fires_only_on_first_emit(
    r0: EventListener,
    r1: EventListener,
    r2: EventListener,
    r3: EventListener,
    n: Seq<char>,
    cb: Listener,
    p1: Seq<char>,
    p2: Seq<char>,
)
    requires
        !is_persistent(cb),
        !r0.listeners_or_empty(n).contains(cb),
        registered(r0, r1, n, cb),
        dispatched(r1, r2, n, p1),
        dispatched(r2, r3, n, p2),
    ensures
        times_invoked(invocations(n, p1, r1.listeners(n)), cb) == 1,
        times_invoked(invocations(n, p2, r2.listeners(n)), cb) == 0,
{
    let ls0 = r0.listeners_or_empty(n);
    let ls1 = r1.listeners(n);
    lemma_times_invoked_invocations(n, p1, ls1, cb);
    lemma_occurrences_push(ls0, cb);
    lemma_occurrences_absent(ls0, cb);
    lemma_persistent_only_drops_once(ls0, cb);
    assert(r2.listeners(n) == persistent_only(ls0));
    lemma_persistent_only_excludes(ls0, cb);
    lemma_times_invoked_invocations(n, p2, r2.listeners(n), cb);
    lemma_occurrences_absent(persistent_only(ls0), cb);
}

/// Ordering: two listeners registered under `n` in sequence are invoked by
/// the following emit of `n` in that sequence — the earlier registration
/// strictly before the later one.
pub proof fn lemma_fire_in_registration_order(
    r0: EventListener,
    r1: EventListener,
    r2: EventListener,
    r3: EventListener,
    n: Seq<char>,
    cb1: Listener,
    cb2: Listener,
    p: Seq<char>,
)
    requires
        registered(r0, r1, n, cb1),
        registered(r1, r2, n, cb2),
        dispatched(r2, r3, n, p),
    ensures
        r3.hist() == r2.hist() + invocations(n, p, r2.listeners(n)),
        r2.listeners(n).len() >= 2,
        invocations(n, p, r2.listeners(n))[r2.listeners(n).len() - 2] == (Invocation {
            name: n,
            data: p,
            listener: cb1,
        }),
        invocations(n, p, r2.listeners(n))[r2.listeners(n).len() - 1] == (Invocation {
            name: n,
            data: p,
            listener: cb2,
        }),
{
    let ls1 = r1.listeners(n);
    let ls2 = r2.listeners(n);
    assert(ls2[ls2.len() - 2] == cb1);
    assert(ls2[ls2.len() - 1] == cb2);
}

/// Cap enforcement: with a cap of 1 and no listeners yet under `n`, one
/// registration under `n` is admitted; after it, the listener count is 1 and
/// no further registration under `n` is admitted.
pub proof fn lemma_cap_enforcement(r1: EventListener, r2: EventListener, n: Seq<char>, cb1: Listener)
    requires
        r1.cap() == 1,
        r1.listener_count(n) == 0,
    ensures
        can_register(r1, n),
        registered(r1, r2, n, cb1) ==> r2.listener_count(n) == 1 && !can_register(r2, n),
{
}

/// Uncapped mode: with the cap set to 0, a registration is admitted under
/// every event name, whatever the event's listener count.
pub proof fn lemma_uncapped_admits_all(r: EventListener, n: Seq<char>)
    requires
        r.cap() == 0,
    ensures
        can_register(r, n),
{
}

/// Removal then emitting: after the listeners under `n` are removed, an emit
/// of `n` still succeeds but invokes nothing — it leaves the invocation
/// history unchanged.
pub proof fn lemma_emit_after_removal(
    r0: EventListener,
    r1: EventListener,
    r2: EventListener,
    n: Seq<char>,
    p: Seq<char>,
)
    requires
        cleared(r0, r1, n),
        dispatched(r1, r2, n, p),
    ensures
        r2.hist() == r1.hist(),
{
    assert(invocations(n, p, r1.listeners(n)).len() == 0);
    assert(r2.hist() =~= r1.hist());
}

/// Dispatch runs over a snapshot: an emit of `n` invokes no listener that
/// was not recorded under `n` when the emit began — in particular, none that
/// a callback registers while the dispatch is under way.
pub proof fn lemma_dispatch_snapshot(
    r1: EventListener,
    r2: EventListener,
    n: Seq<char>,
    p: Seq<char>,
    other: Listener,
)
    requires
        dispatched(r1, r2, n, p),
        !r1.listeners(n).contains(other),
    ensures
        r2.hist() == r1.hist() + invocations(n, p, r1.listeners(n)),
        times_invoked(invocations(n, p, r1.listeners(n)), other) == 0,
{
    lemma_times_invoked_invocations(n, p, r1.listeners(n), other);
    lemma_occurrences_absent(r1.listeners(n), other);
}

/// Reserved entries: a registry whose entries are exactly the two reserved
/// ones knows an event name if and only if it is one of the two; emitting
/// any other name on it fails.
pub proof fn lemma_fresh_registry_events(r: EventListener, m: Seq<char>)
    requires
        r@.len() == 2,
        r@[0].name@ == "newListener"@,
        r@[1].name@ == "removeListener"@,
    ensures
        r.has_event(m) <==> (m == "newListener"@ || m == "removeListener"@),
{
    if r.has_event(m) {
        let k = r.event_index(m);
        assert(0 <= k < 2 && r@[k].name@ == m);
    }
    if m == "newListener"@ {
        assert(r@[0].name@ == m);
    }
    if m == "removeListener"@ {
        assert(r@[1].name@ == m);
    }
}

} // verus!
