//! The reaper's bookkeeping: a signal-safe pending counter, and the
//! translation of harvested children into bus events. The system calls
//! that wait for children stay with the embedding program; attribution of
//! a pid to a service is the runtime's job.
use crate::formats::Event;
use vstd::prelude::*;

verus! {

/// The count of `SIGCHLD` notifications not yet answered by a drain.
pub struct Reaper {
    pub pending: u32,
}

impl Reaper {
    /// A reaper with nothing pending.
    pub fn new() -> (r: Reaper)
        ensures
            r.pending == 0,
    {
        Reaper { pending: 0 }
    }

    /// Called for each `SIGCHLD`: bumps the counter, saturating so a
    /// burst of signals can never wrap it back to "nothing pending".
    pub fn notify_sigchld(&mut self)
        ensures
            final(self).pending == if old(self).pending < u32::MAX {
                old(self).pending + 1
            } else {
                u32::MAX as int
            },
            final(self).pending > 0,
    {
        if self.pending < u32::MAX {
            self.pending = self.pending + 1;
        }
    }

    /// Whether any non-zero transition of the counter awaits: if so, the
    /// children must be drained now.
    pub fn should_drain(&self) -> (r: bool)
        ensures
            r == (self.pending > 0),
    {
        self.pending > 0
    }

    /// Acknowledges every notification received so far, before draining.
    pub fn acknowledge(&mut self)
        ensures
            final(self).pending == 0,
    {
        self.pending = 0;
    }
}

/// Turns one harvest — the `(pid, exit status)` pairs a drain collected —
/// into the events to publish, one `ProcessExited` per child, in harvest
/// order.
pub fn events_for_harvest(harvested: &Vec<(i32, i32)>) -> (r: Vec<Event>)
    ensures
        r@.len() == harvested@.len(),
        forall|k: int|
            0 <= k < harvested@.len() ==> r@[k] == Event::ProcessExited(
                harvested@[k].0,
                harvested@[k].1,
            ),
{
    let mut r: Vec<Event> = Vec::new();
    let mut i: usize = 0;
    while i < harvested.len()
        invariant
            i <= harvested@.len(),
            r@.len() == i,
            forall|k: int|
                0 <= k < i ==> r@[k] == Event::ProcessExited(harvested@[k].0, harvested@[k].1),
        decreases harvested@.len() - i,
    {
        let (pid, code) = harvested[i];
        r.push(Event::ProcessExited(pid, code));
        i = i + 1;
    }
    r
}

} // verus!
