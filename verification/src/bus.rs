//! The event bus: a process-local broadcast channel. Every worker joins
//! before dispatch begins and owns one endpoint; a published event is
//! delivered, in publication order, to every endpoint but the publisher's.
use crate::formats::clone_event;
use crate::formats::Event;
use vstd::prelude::*;

verus! {

/// The bus with one FIFO inbox per joined endpoint.
pub struct Bus {
    pub inboxes: Vec<Vec<Event>>,
}

impl Bus {
    /// An empty bus: no endpoints yet.
    pub fn new() -> (b: Bus)
        ensures
            b.inboxes@.len() == 0,
    {
        Bus { inboxes: Vec::new() }
    }

    /// How many endpoints have joined.
    pub fn endpoints(&self) -> (n: usize)
        ensures
            n == self.inboxes@.len(),
    {
        self.inboxes.len()
    }

    /// Registers a new endpoint and returns its handle. The new inbox is
    /// empty and no other inbox changes.
    pub fn join(&mut self) -> (idx: usize)
        ensures
            idx == old(self).inboxes@.len(),
            final(self).inboxes@.len() == old(self).inboxes@.len() + 1,
            final(self).inboxes@[idx as int]@.len() == 0,
            forall|i: int|
                0 <= i < old(self).inboxes@.len() ==> final(self).inboxes@[i]
                    == old(self).inboxes@[i],
    {
        let idx = self.inboxes.len();
        self.inboxes.push(Vec::new());
        idx
    }

    /// Delivers one event from endpoint `from` to every other endpoint,
    /// appending it to their inboxes; the publisher does not receive its
    /// own event. Appending at the tail keeps delivery FIFO per publisher.
    pub fn publish(&mut self, from: usize, event: &Event)
        requires
            from < old(self).inboxes@.len(),
        ensures
            final(self).inboxes@.len() == old(self).inboxes@.len(),
            final(self).inboxes@[from as int] == old(self).inboxes@[from as int],
            forall|i: int|
                0 <= i < old(self).inboxes@.len() && i != from ==> final(self).inboxes@[i]@
                    == old(self).inboxes@[i]@.push(*event),
    {
        let n = self.inboxes.len();
        let mut i: usize = 0;
        while i < n
            invariant
                n == self.inboxes@.len(),
                from < n,
                i <= n,
                forall|j: int| i <= j < n ==> self.inboxes@[j] == old(self).inboxes@[j],
                self.inboxes@[from as int] == old(self).inboxes@[from as int],
                forall|j: int|
                    0 <= j < i && j != from ==> self.inboxes@[j]@ == old(self).inboxes@[j]@.push(
                        *event,
                    ),
            decreases n - i,
        {
            if i != from {
                let inbox = &mut self.inboxes[i];
                inbox.push(clone_event(event));
            }
            i = i + 1;
        }
    }

    /// Takes the whole backlog of endpoint `idx`, oldest first, leaving
    /// its inbox empty. Other inboxes do not change.
    pub fn drain(&mut self, idx: usize) -> (r: Vec<Event>)
        requires
            idx < old(self).inboxes@.len(),
        ensures
            r@ == old(self).inboxes@[idx as int]@,
            final(self).inboxes@.len() == old(self).inboxes@.len(),
            final(self).inboxes@[idx as int]@.len() == 0,
            forall|i: int|
                0 <= i < old(self).inboxes@.len() && i != idx ==> final(self).inboxes@[i]
                    == old(self).inboxes@[i],
    {
        let mut taken: Vec<Event> = Vec::new();
        let inbox = &mut self.inboxes[idx];
        core::mem::swap(inbox, &mut taken);
        taken
    }
}

} // verus!
