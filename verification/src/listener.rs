//! Listener records: the callback interface, the firing mode, and the
//! ghost record of a single callback invocation.

use vstd::prelude::*;

verus! {

/// The behaviour attached to an event.
///
/// A registered callback is invoked with the event's name and the payload
/// that was handed to `emit`. Implementors are free to do anything; the
/// registry promises nothing about the callback's effects, only about which
/// callbacks it invokes, with which arguments, and in which order.
pub trait Callback {
    /// Invoked once per dispatch of the event this callback is registered under.
    fn call(&self, name: String, data: String);
}

/// A boxed callback, as the registry stores it.
pub type ListenerCallback = Box<dyn Callback>;

/// Firing mode of a listener.
#[derive(Clone, Copy, Debug, PartialEq, Eq, Structural)]
pub enum ListenerTypes {
    /// Invoked on every emit of its event.
    On,
    /// Invoked on the first emit of its event after registration, then removed.
    Once,
}

/// A registered listener: its firing mode and its callback.
pub struct Listener {
    /// Firing mode; fixed when the listener is recorded.
    pub rtype: ListenerTypes,
    /// The callback to invoke.
    pub callback: ListenerCallback,
}

/// Whether a listener survives a dispatch of its event.
pub open spec fn is_persistent(l: Listener) -> bool {
    l.rtype is On
}

/// The listeners of `ls` that survive a dispatch: the persistent ones, in
/// their original order.
pub open spec fn persistent_only(ls: Seq<Listener>) -> Seq<Listener>
    decreases ls.len(),
{
    if ls.len() == 0 {
        Seq::empty()
    } else if is_persistent(ls.last()) {
        persistent_only(ls.drop_last()).push(ls.last())
    } else {
        persistent_only(ls.drop_last())
    }
}

/// Ghost record of one callback invocation: which listener was invoked,
/// and with which event name and payload.
pub struct Invocation {
    /// The event name the callback received.
    pub name: Seq<char>,
    /// The payload the callback received.
    pub data: Seq<char>,
    /// The listener whose callback was invoked.
    pub listener: Listener,
}

/// The invocations that one dispatch performs: every listener of `ls`, in
/// order, each invoked once with the event name and the payload.
pub open spec fn invocations(name: Seq<char>, data: Seq<char>, ls: Seq<Listener>) -> Seq<Invocation> {
    ls.map(|i: int, l: Listener| Invocation { name: name, data: data, listener: l })
}

} // verus!
