use vstd::prelude::*;
use crate::events::{ChangeEvent, ChangeRec};
use crate::value::Value;

verus! {

/// A change subscriber: an opaque host callback, invoked with every
/// `ChangeEvent`. An `Err` stands for a callback that raised; delivery
/// swallows it, so one misbehaving subscriber can neither block later
/// subscribers nor fail the mutation that triggered it.
pub trait Listener {
    fn on_change(&self, event: &ChangeEvent) -> Result<(), Value>;
}

/// The ordered collection of subscribers. A handle is the subscriber's
/// current position: removing one shifts every later subscriber down,
/// so a handle taken earlier may afterwards name a different subscriber.
///
/// `delivered` is the ghost history of every event this registry was
/// asked to deliver: the contracts' record of what was emitted.
pub struct ListenerRegistry<L> {
    callbacks: Vec<L>,
    delivered: Ghost<Seq<ChangeRec>>,
}

impl<L: Listener> ListenerRegistry<L> {
    /// The subscribers, in registration order.
    pub closed spec fn cbs(self) -> Seq<L> {
        self.callbacks@
    }

    /// Every event delivered so far, oldest first.
    pub closed spec fn log(self) -> Seq<ChangeRec> {
        self.delivered@
    }

    /// An empty registry with an empty delivery history.
    pub fn new() -> (r: ListenerRegistry<L>)
        ensures
            r.cbs() == Seq::<L>::empty(),
            r.log() == Seq::<ChangeRec>::empty(),
    {
        ListenerRegistry { callbacks: Vec::new(), delivered: Ghost(Seq::empty()) }
    }

    /// How many subscribers are currently registered.
    pub fn count(&self) -> (n: usize)
        ensures
            n == self.cbs().len(),
    {
        self.callbacks.len()
    }

    /// Append a subscriber; the handle is its position, so the first
    /// subscriber gets handle 0 and handles count up from there.
    pub fn subscribe(&mut self, callback: L) -> (handle: u32)
        requires
            old(self).cbs().len() < u32::MAX,
        ensures
            final(self).cbs() == old(self).cbs().push(callback),
            final(self).log() == old(self).log(),
            handle as nat == old(self).cbs().len(),
    {
        self.callbacks.push(callback);
        (self.callbacks.len() - 1) as u32
    }

    /// Remove the subscriber at `handle` and shift later ones down;
    /// silently ignore a handle that names no current position.
    pub fn unsubscribe(&mut self, handle: u32)
        ensures
            final(self).cbs() == if (handle as nat) < old(self).cbs().len() {
                old(self).cbs().remove(handle as int)
            } else {
                old(self).cbs()
            },
            final(self).log() == old(self).log(),
    {
        if (handle as usize) < self.callbacks.len() {
            let _ = self.callbacks.remove(handle as usize);
        }
    }

    /// Deliver one event to every subscriber in registration order,
    /// swallowing whatever a subscriber raises.
    pub fn notify_all(&mut self, event: &ChangeEvent)
        ensures
            final(self).cbs() == old(self).cbs(),
            final(self).log() == old(self).log().push(event.model()),
    {
        proof {
            self.delivered@ = self.delivered@.push(event.model());
        }
        let mut i: usize = 0;
        while i < self.callbacks.len()
            invariant
                self.callbacks@ == old(self).callbacks@,
                self.delivered@ == old(self).delivered@.push(event.model()),
            decreases self.callbacks@.len() - i,
        {
            let _ = self.callbacks[i].on_change(event);
            i = i + 1;
        }
    }
}

} // verus!
