//! The supervisor: sole owner of the per-service entries, the only
//! component that decides spawns and status changes. It is driven purely
//! by values — bus events, harvested pids, the clock as a millisecond
//! count — and answers with the events to publish and the signals to
//! send, so every decision here is checked.
//!
//! A ghost trace records every event the runtime has published. The
//! well-formedness invariant ties each entry's status to that trace: an
//! active service has exactly one `ServiceStarted` not yet matched by a
//! `ServiceExited`, a running one was announced by a `ServiceRunning`,
//! and once `ShutdownCompleted` is on the trace every entry is terminal.
use crate::formats::Event;
use crate::formats::FailureStrategy;
use crate::formats::Health;
use crate::formats::RestartStrategy;
use crate::formats::Service;
use crate::formats::ServiceStatus;
use crate::signal_handling;
use crate::signal_handling::signal_number_spec;
use crate::validate;
use vstd::prelude::*;

verus! {

broadcast use vstd::seq_lib::lemma_seq_contains_after_push;

/// A signal the embedding program must deliver: `kill(-pid, signal)`.
#[derive(Clone, Copy, Debug, PartialEq, Eq, Structural)]
pub struct SigCmd {
    pub pid: i32,
    pub signal: u8,
}

/// The mutable record of one service.
pub struct ServiceEntry {
    /// The immutable descriptor.
    pub service: Service,
    /// `start_after` resolved to entry indices.
    pub deps: Vec<usize>,
    pub status: ServiceStatus,
    /// The live child's pid — populated exactly while the status is
    /// `Starting`, `Running` or `InKilling`.
    pub pid: Option<i32>,
    /// How many restarts have been used.
    pub attempts_used: u32,
    /// No (re)start before this instant.
    pub next_start_ms: u64,
    /// While `InKilling`: when the grace period ends and `SIGKILL` goes.
    pub kill_deadline_ms: u64,
}

/// The whole supervisor state.
pub struct Runtime {
    pub entries: Vec<ServiceEntry>,
    /// Set once shutdown begins; gates every new start and retry.
    pub shutting_down: bool,
    /// Whether `ShutdownCompleted` has been published.
    pub completed: bool,
    /// Every event published so far, in order.
    pub trace: Ghost<Seq<Event>>,
}

/// A status with a live child process behind it.
pub open spec fn is_active(s: ServiceStatus) -> bool {
    s is Starting || s is Running || s is InKilling
}

/// A status from which no transition ever leaves.
pub open spec fn is_terminal(s: ServiceStatus) -> bool {
    s is Success || s is Failed || s is Finished
}

/// How many `ServiceStarted(name)` events the trace holds.
pub open spec fn count_started(tr: Seq<Event>, name: Seq<char>) -> nat
    decreases tr.len(),
{
    if tr.len() == 0 {
        0
    } else {
        count_started(tr.drop_last(), name) + (if tr.last() matches Event::ServiceStarted(n)
            && n@ == name {
            1nat
        } else {
            0nat
        })
    }
}

/// How many `ServiceExited(name, _)` events the trace holds.
pub open spec fn count_exited(tr: Seq<Event>, name: Seq<char>) -> nat
    decreases tr.len(),
{
    if tr.len() == 0 {
        0
    } else {
        count_exited(tr.drop_last(), name) + (if tr.last() matches Event::ServiceExited(n, _c)
            && n@ == name {
            1nat
        } else {
            0nat
        })
    }
}

/// How many `ServiceRunning(name)` events the trace holds.
pub open spec fn count_running(tr: Seq<Event>, name: Seq<char>) -> nat
    decreases tr.len(),
{
    if tr.len() == 0 {
        0
    } else {
        count_running(tr.drop_last(), name) + (if tr.last() matches Event::ServiceRunning(n)
            && n@ == name {
            1nat
        } else {
            0nat
        })
    }
}

/// How many `ShutdownCompleted` events the trace holds.
pub open spec fn count_completed(tr: Seq<Event>) -> nat
    decreases tr.len(),
{
    if tr.len() == 0 {
        0
    } else {
        count_completed(tr.drop_last()) + (if tr.last() is ShutdownCompleted {
            1nat
        } else {
            0nat
        })
    }
}

/// Counting distributes over concatenation of traces.
pub proof fn lemma_counts_concat(tr: Seq<Event>, ex: Seq<Event>, name: Seq<char>)
    ensures
        count_started(tr + ex, name) == count_started(tr, name) + count_started(ex, name),
        count_exited(tr + ex, name) == count_exited(tr, name) + count_exited(ex, name),
        count_running(tr + ex, name) == count_running(tr, name) + count_running(ex, name),
        count_completed(tr + ex) == count_completed(tr) + count_completed(ex),
    decreases ex.len(),
{
    if ex.len() == 0 {
        assert(tr + ex =~= tr);
    } else {
        lemma_counts_concat(tr, ex.drop_last(), name);
        assert((tr + ex).drop_last() =~= tr + ex.drop_last());
        assert((tr + ex).last() == ex.last());
    }
}

/// Events that no count watches: appending them moves no counter.
pub open spec fn no_counted(ex: Seq<Event>) -> bool {
    forall|k: int|
        0 <= k < ex.len() ==> {
            &&& !((#[trigger] ex[k]) is ServiceStarted)
            &&& !(ex[k] is ServiceExited)
            &&& !(ex[k] is ServiceRunning)
            &&& !(ex[k] is ShutdownCompleted)
        }
}

/// A trace of uncounted events adds nothing to any counter.
pub proof fn lemma_counts_zero(ex: Seq<Event>)
    requires
        no_counted(ex),
    ensures
        forall|n: Seq<char>| count_started(ex, n) == 0,
        forall|n: Seq<char>| count_exited(ex, n) == 0,
        forall|n: Seq<char>| count_running(ex, n) == 0,
        count_completed(ex) == 0,
    decreases ex.len(),
{
    if ex.len() > 0 {
        assert(no_counted(ex.drop_last())) by {
            assert(forall|k: int|
                0 <= k < ex.drop_last().len() ==> ex.drop_last()[k] == ex[k]);
        }
        lemma_counts_zero(ex.drop_last());
        assert(!(ex.last() is ServiceStarted) && !(ex.last() is ServiceExited) && !(ex.last()
            is ServiceRunning) && !(ex.last() is ShutdownCompleted)) by {
            assert(ex.last() == ex[ex.len() - 1]);
        }
        assert forall|n: Seq<char>| count_started(ex, n) == 0 by {
            assert(count_started(ex.drop_last(), n) == 0);
        }
        assert forall|n: Seq<char>| count_exited(ex, n) == 0 by {
            assert(count_exited(ex.drop_last(), n) == 0);
        }
        assert forall|n: Seq<char>| count_running(ex, n) == 0 by {
            assert(count_running(ex.drop_last(), n) == 0);
        }
    }
}

/// Extending a trace by uncounted events keeps every counter.
pub proof fn lemma_uncounted_extension(tr: Seq<Event>, ex: Seq<Event>)
    requires
        no_counted(ex),
    ensures
        forall|n: Seq<char>| count_started(tr + ex, n) == count_started(tr, n),
        forall|n: Seq<char>| count_exited(tr + ex, n) == count_exited(tr, n),
        forall|n: Seq<char>| count_running(tr + ex, n) == count_running(tr, n),
        count_completed(tr + ex) == count_completed(tr),
{
    lemma_counts_zero(ex);
    assert forall|n: Seq<char>|
        count_started(tr + ex, n) == count_started(tr, n) && count_exited(tr + ex, n)
            == count_exited(tr, n) && count_running(tr + ex, n) == count_running(tr, n) by {
        lemma_counts_concat(tr, ex, n);
    }
    lemma_counts_concat(tr, ex, Seq::empty());
}

/// What one event adds to each counter.
pub proof fn lemma_counts_singleton(e: Event)
    ensures
        forall|n: Seq<char>|
            count_started(seq![e], n) == (if e matches Event::ServiceStarted(m) && m@ == n {
                1nat
            } else {
                0nat
            }),
        forall|n: Seq<char>|
            count_exited(seq![e], n) == (if e matches Event::ServiceExited(m, _c) && m@ == n {
                1nat
            } else {
                0nat
            }),
        forall|n: Seq<char>|
            count_running(seq![e], n) == (if e matches Event::ServiceRunning(m) && m@ == n {
                1nat
            } else {
                0nat
            }),
        count_completed(seq![e]) == (if e is ShutdownCompleted {
            1nat
        } else {
            0nat
        }),
{
    assert(seq![e].drop_last() =~= Seq::<Event>::empty());
    assert(seq![e].last() == e);
    assert(count_completed(Seq::<Event>::empty()) == 0);
    assert forall|n: Seq<char>|
        count_started(seq![e], n) == (if e matches Event::ServiceStarted(m) && m@ == n {
            1nat
        } else {
            0nat
        }) by {
        assert(count_started(Seq::<Event>::empty(), n) == 0);
        assert(count_started(seq![e], n) == count_started(seq![e].drop_last(), n) + (if seq![
            e,
        ].last() matches Event::ServiceStarted(m) && m@ == n {
            1nat
        } else {
            0nat
        }));
    }
    assert forall|n: Seq<char>|
        count_exited(seq![e], n) == (if e matches Event::ServiceExited(m, _c) && m@ == n {
            1nat
        } else {
            0nat
        }) by {
        assert(count_exited(Seq::<Event>::empty(), n) == 0);
        assert(count_exited(seq![e], n) == count_exited(seq![e].drop_last(), n) + (if seq![
            e,
        ].last() matches Event::ServiceExited(m, _c) && m@ == n {
            1nat
        } else {
            0nat
        }));
    }
    assert forall|n: Seq<char>|
        count_running(seq![e], n) == (if e matches Event::ServiceRunning(m) && m@ == n {
            1nat
        } else {
            0nat
        }) by {
        assert(count_running(Seq::<Event>::empty(), n) == 0);
        assert(count_running(seq![e], n) == count_running(seq![e].drop_last(), n) + (if seq![
            e,
        ].last() matches Event::ServiceRunning(m) && m@ == n {
            1nat
        } else {
            0nat
        }));
    }
}

/// The unique-name and unique-pid clauses carry over to a state with the
/// same names and pids.
proof fn lemma_names_pids_frame(pre: Runtime, post: Runtime)
    requires
        pre.wf(),
        post.n() == pre.n(),
        forall|i: int|
            0 <= i < pre.n() ==> (#[trigger] post.entries@[i]).service.name@
                == pre.entries@[i].service.name@,
        forall|i: int| 0 <= i < pre.n() ==> (#[trigger] post.entries@[i]).pid == pre.entries@[i].pid,
    ensures
        forall|i: int, j: int|
            0 <= i < post.n() && 0 <= j < post.n() && i != j ==> post.nm(i) != post.nm(j),
        forall|i: int, j: int|
            0 <= i < post.n() && 0 <= j < post.n() && i != j && post.entries@[i].pid is Some
                && post.entries@[j].pid is Some ==> post.entries@[i].pid->0
                != post.entries@[j].pid->0,
{
    assert forall|i: int, j: int|
        0 <= i < post.n() && 0 <= j < post.n() && i != j implies post.nm(i) != post.nm(j) by {
        assert(post.nm(i) == pre.nm(i));
        assert(post.nm(j) == pre.nm(j));
    }
}

/// As `lemma_names_pids_frame`, but an entry's pid may also have been
/// dropped: uniqueness of the remaining pids still carries over.
proof fn lemma_names_pids_frame_weak(pre: Runtime, post: Runtime)
    requires
        pre.wf(),
        post.n() == pre.n(),
        forall|i: int|
            0 <= i < pre.n() ==> (#[trigger] post.entries@[i]).service.name@
                == pre.entries@[i].service.name@,
        forall|i: int|
            0 <= i < pre.n() ==> (#[trigger] post.entries@[i]).pid == pre.entries@[i].pid
                || post.entries@[i].pid is None,
    ensures
        forall|i: int, j: int|
            0 <= i < post.n() && 0 <= j < post.n() && i != j ==> post.nm(i) != post.nm(j),
        forall|i: int, j: int|
            0 <= i < post.n() && 0 <= j < post.n() && i != j && post.entries@[i].pid is Some
                && post.entries@[j].pid is Some ==> post.entries@[i].pid->0
                != post.entries@[j].pid->0,
{
    assert forall|i: int, j: int|
        0 <= i < post.n() && 0 <= j < post.n() && i != j implies post.nm(i) != post.nm(j) by {
        assert(post.nm(i) == pre.nm(i));
        assert(post.nm(j) == pre.nm(j));
    }
    assert forall|i: int, j: int|
        0 <= i < post.n() && 0 <= j < post.n() && i != j && post.entries@[i].pid is Some
            && post.entries@[j].pid is Some implies post.entries@[i].pid->0
            != post.entries@[j].pid->0 by {
        assert(post.entries@[i].pid == pre.entries@[i].pid);
        assert(post.entries@[j].pid == pre.entries@[j].pid);
    }
}

/// An event sound for the mid state — the pre state with entry `iw`
/// already settled inactive — is sound for the pre state too.
proof fn lemma_initiated_sound_lift(pre: Runtime, mid: Runtime, iw: int, e: Event)
    requires
        pre.n() == mid.n(),
        0 <= iw < pre.n(),
        !is_active(mid.entries@[iw].status),
        forall|j: int| 0 <= j < pre.n() && j != iw ==> mid.entries@[j] == pre.entries@[j],
        initiated_sound(mid, e),
    ensures
        initiated_sound(pre, e),
{
    match e {
        Event::ShutdownInitiated(n) => {
            let i0 = choose|i: int|
                0 <= i < mid.n() && is_active((#[trigger] mid.entries@[i]).status) && mid.nm(i)
                    == n@;
            assert(i0 != iw);
            assert(mid.entries@[i0] == pre.entries@[i0]);
            assert(is_active(pre.entries@[i0].status) && pre.nm(i0) == n@);
        },
        _ => (),
    }
}

/// The completion clauses carry over to a state whose trace gained no
/// `ShutdownCompleted` and whose terminal entries stayed terminal.
proof fn lemma_completed_frame(pre: Runtime, post: Runtime, ex: Seq<Event>)
    requires
        pre.wf(),
        post.n() == pre.n(),
        post.trace@ == pre.trace@ + ex,
        post.completed == pre.completed,
        count_completed(ex) == 0,
        forall|i: int|
            0 <= i < pre.n() && is_terminal((#[trigger] pre.entries@[i]).status) ==> is_terminal(
                post.entries@[i].status,
            ),
    ensures
        post.completed == (count_completed(post.trace@) >= 1),
        count_completed(post.trace@) >= 1 ==> forall|i: int|
            0 <= i < post.n() ==> is_terminal(post.entries@[i].status),
{
    lemma_counts_concat(pre.trace@, ex, Seq::empty());
    assert(count_completed(post.trace@) == count_completed(pre.trace@));
    if count_completed(post.trace@) >= 1 {
        assert forall|i: int| 0 <= i < post.n() implies is_terminal(post.entries@[i].status) by {
            assert(is_terminal(pre.entries@[i].status));
        }
    }
}

impl Runtime {
    /// Number of entries.
    pub open spec fn n(self) -> int {
        self.entries@.len() as int
    }

    /// Name of entry `i`.
    pub open spec fn nm(self, i: int) -> Seq<char> {
        self.entries@[i].service.name@
    }

    /// Per-entry invariant on plain state: the pid is held exactly in the
    /// active statuses, the attempt budget is respected, dependencies are
    /// resolved in range to the services `start_after` names, and the
    /// termination signal is one the engine can send.
    pub open spec fn entry_ok(self, i: int) -> bool {
        let e = self.entries@[i];
        &&& ((e.pid is Some) <==> is_active(e.status))
        &&& (e.service.restart.attempts > 0 ==> e.attempts_used <= e.service.restart.attempts)
        &&& e.deps@.len() == e.service.start_after@.len()
        &&& (forall|k: int|
            0 <= k < e.deps@.len() ==> (#[trigger] e.deps@[k]) < self.n()
                && self.entries@[e.deps@[k] as int].service.name@ == e.service.start_after@[k]@)
        &&& signal_number_spec(e.service.termination.signal@) is Some
    }

    /// Per-entry invariant on the trace: starts and exits of an entry
    /// alternate, beginning with a start — an active entry has exactly
    /// one unmatched `ServiceStarted`, an inactive one has none — and a
    /// running entry was announced by a `ServiceRunning`.
    pub open spec fn entry_trace_ok(self, i: int) -> bool {
        let e = self.entries@[i];
        &&& (is_active(e.status) ==> count_started(self.trace@, self.nm(i)) == count_exited(
            self.trace@,
            self.nm(i),
        ) + 1)
        &&& (!is_active(e.status) ==> count_started(self.trace@, self.nm(i)) == count_exited(
            self.trace@,
            self.nm(i),
        ))
        &&& (e.status is Running ==> count_running(self.trace@, self.nm(i)) >= 1)
    }

    /// Well-formedness of the whole supervisor: every entry invariant,
    /// unique names, unique live pids, and the completion sentinel on the
    /// trace only with every entry terminal.
    pub open spec fn wf(self) -> bool {
        &&& (forall|i: int| 0 <= i < self.n() ==> self.entry_ok(i))
        &&& (forall|i: int| 0 <= i < self.n() ==> self.entry_trace_ok(i))
        &&& (forall|i: int, j: int|
            0 <= i < self.n() && 0 <= j < self.n() && i != j ==> self.nm(i) != self.nm(j))
        &&& (forall|i: int, j: int|
            0 <= i < self.n() && 0 <= j < self.n() && i != j && self.entries@[i].pid is Some
                && self.entries@[j].pid is Some ==> self.entries@[i].pid->0
                != self.entries@[j].pid->0)
        &&& self.completed == (count_completed(self.trace@) >= 1)
        &&& (count_completed(self.trace@) >= 1 ==> forall|i: int|
            0 <= i < self.n() ==> is_terminal(self.entries@[i].status))
    }

    /// The descriptors and their resolved dependencies never change.
    pub open spec fn same_shape(self, other: Runtime) -> bool {
        &&& other.n() == self.n()
        &&& (forall|i: int|
            0 <= i < self.n() ==> (#[trigger] other.entries@[i]).service
                == self.entries@[i].service && other.entries@[i].deps@
                == self.entries@[i].deps@)
    }

    /// Every dependency of entry `i` is currently `Running`.
    pub open spec fn deps_running(self, i: int) -> bool {
        forall|k: int|
            0 <= k < self.entries@[i].deps@.len()
                ==> self.entries@[(#[trigger] self.entries@[i].deps@[k]) as int].status is Running
    }

    /// Entry `i` may start now: still `Initial`, its backoff has passed,
    /// every dependency is `Running`, and no shutdown is pending.
    pub open spec fn eligible(self, i: int, now_ms: u64) -> bool {
        &&& self.entries@[i].status is Initial
        &&& self.entries@[i].next_start_ms <= now_ms
        &&& self.deps_running(i)
        &&& !self.shutting_down
    }

    /// Builds the supervisor from a validated service set: every entry
    /// `Initial`, no pid, no attempt used, an empty trace.
    pub fn new(services: Vec<Service>) -> (rt: Runtime)
        requires
            validate::valid_config(services@),
        ensures
            rt.wf(),
            rt.n() == services@.len(),
            forall|i: int|
                0 <= i < services@.len() ==> {
                    &&& (#[trigger] rt.entries@[i]).service == services@[i]
                    &&& rt.entries@[i].status is Initial
                    &&& rt.entries@[i].pid is None
                    &&& rt.entries@[i].attempts_used == 0
                    &&& rt.entries@[i].next_start_ms == 0
                },
            !rt.shutting_down,
            !rt.completed,
            rt.trace@.len() == 0,
    {
        let deps_table = resolve_deps(&services);
        let ghost orig = services@;
        let mut services = services;
        let mut deps_table = deps_table;
        let mut entries: Vec<ServiceEntry> = Vec::new();
        while services.len() > 0
            invariant
                services@.len() == deps_table@.len(),
                entries@.len() + services@.len() == orig.len(),
                forall|i: int|
                    0 <= i < services@.len() ==> #[trigger] services@[i] == orig[entries@.len()
                        + i],
                forall|i: int|
                    0 <= i < deps_table@.len() ==> (#[trigger] deps_table@[i])@.len()
                        == orig[entries@.len() + i].start_after@.len(),
                forall|i: int, k: int|
                    0 <= i < deps_table@.len() && 0 <= k < deps_table@[i]@.len() ==> (
                    #[trigger] deps_table@[i]@[k]) < orig.len()
                        && orig[deps_table@[i]@[k] as int].name@ == orig[entries@.len()
                        + i].start_after@[k]@,
                forall|i: int|
                    0 <= i < entries@.len() ==> {
                        &&& (#[trigger] entries@[i]).service == orig[i]
                        &&& entries@[i].deps@.len() == orig[i].start_after@.len()
                        &&& entries@[i].status is Initial
                        &&& entries@[i].pid is None
                        &&& entries@[i].attempts_used == 0
                        &&& entries@[i].next_start_ms == 0
                        &&& entries@[i].kill_deadline_ms == 0
                    },
                forall|i: int, k: int|
                    0 <= i < entries@.len() && 0 <= k < entries@[i].deps@.len() ==> (
                    #[trigger] entries@[i].deps@[k]) < orig.len()
                        && orig[entries@[i].deps@[k] as int].name@ == orig[i].start_after@[k]@,
            decreases services@.len(),
        {
            let service = services.remove(0);
            let deps = deps_table.remove(0);
            entries.push(
                ServiceEntry {
                    service,
                    deps,
                    status: ServiceStatus::Initial,
                    pid: None,
                    attempts_used: 0,
                    next_start_ms: 0,
                    kill_deadline_ms: 0,
                },
            );
        }
        let rt = Runtime {
            entries,
            shutting_down: false,
            completed: false,
            trace: Ghost(Seq::empty()),
        };
        proof {
            assert forall|i: int| 0 <= i < rt.n() implies rt.entry_ok(i) by {
                assert(rt.entries@[i].service == orig[i]);
            }
            assert forall|i: int| 0 <= i < rt.n() implies rt.entry_trace_ok(i) by {
                assert(count_started(rt.trace@, rt.nm(i)) == 0);
                assert(count_exited(rt.trace@, rt.nm(i)) == 0);
            }
            assert(count_completed(rt.trace@) == 0);
        }
        rt
    }

    /// The services that may start now, in index order: exactly those
    /// eligible at `now_ms`. During shutdown nothing is eligible.
    pub fn runnable(&self, now_ms: u64) -> (r: Vec<usize>)
        requires
            self.wf(),
        ensures
            forall|k: int|
                0 <= k < r@.len() ==> (#[trigger] r@[k]) < self.n() && self.eligible(
                    r@[k] as int,
                    now_ms,
                ),
            forall|i: int| 0 <= i < self.n() && self.eligible(i, now_ms) ==> r@.contains(i as usize),
            forall|k1: int, k2: int| 0 <= k1 < k2 < r@.len() ==> r@[k1] < r@[k2],
    {
        let mut r: Vec<usize> = Vec::new();
        if self.shutting_down {
            return r;
        }
        let n = self.entries.len();
        let mut i: usize = 0;
        while i < n
            invariant
                self.wf(),
                n == self.n(),
                i <= n,
                !self.shutting_down,
                forall|k: int|
                    0 <= k < r@.len() ==> (#[trigger] r@[k]) < i && self.eligible(
                        r@[k] as int,
                        now_ms,
                    ),
                forall|j: int| 0 <= j < i && self.eligible(j, now_ms) ==> r@.contains(j as usize),
                forall|k1: int, k2: int| 0 <= k1 < k2 < r@.len() ==> r@[k1] < r@[k2],
            decreases n - i,
        {
            proof {
                assert(self.entry_ok(i as int));
            }
            let e = &self.entries[i];
            let initial = match e.status {
                ServiceStatus::Initial => true,
                _ => false,
            };
            if initial && e.next_start_ms <= now_ms && self.all_deps_running(i) {
                r.push(i);
            }
            i = i + 1;
        }
        r
    }

    /// Whether every dependency of entry `i` is `Running`.
    fn all_deps_running(&self, i: usize) -> (r: bool)
        requires
            i < self.n(),
            forall|k: int|
                0 <= k < self.entries@[i as int].deps@.len()
                    ==> (#[trigger] self.entries@[i as int].deps@[k]) < self.n(),
        ensures
            r == self.deps_running(i as int),
    {
        let deps = &self.entries[i].deps;
        let m = deps.len();
        let mut k: usize = 0;
        while k < m
            invariant
                m == deps@.len(),
                k <= m,
                deps@ == self.entries@[i as int].deps@,
                i < self.n(),
                forall|t: int| 0 <= t < m ==> (#[trigger] deps@[t]) < self.n(),
                forall|t: int|
                    0 <= t < k ==> self.entries@[(#[trigger] deps@[t]) as int].status is Running,
            decreases m - k,
        {
            let d = deps[k];
            let running = match self.entries[d].status {
                ServiceStatus::Running => true,
                _ => false,
            };
            if !running {
                return false;
            }
            k = k + 1;
        }
        true
    }

    /// The entry whose live child is `pid`, if any. `None` means the pid
    /// belongs to no supervised service — an orphan the engine reaped.
    pub fn find_by_pid(&self, pid: i32) -> (r: Option<usize>)
        ensures
            r matches Some(i) ==> i < self.n() && self.entries@[i as int].pid == Some(pid),
            r is None ==> forall|j: int|
                0 <= j < self.n() ==> (#[trigger] self.entries@[j]).pid != Some(pid),
    {
        let n = self.entries.len();
        let mut i: usize = 0;
        while i < n
            invariant
                n == self.n(),
                i <= n,
                forall|j: int| 0 <= j < i ==> (#[trigger] self.entries@[j]).pid != Some(pid),
            decreases n - i,
        {
            let held = match self.entries[i].pid {
                Some(p) => p == pid,
                None => false,
            };
            if held {
                return Some(i);
            }
            i = i + 1;
        }
        None
    }

    /// The entry carrying this service name, if any.
    fn find_index_by_name(&self, name: &String) -> (r: Option<usize>)
        ensures
            r matches Some(i) ==> i < self.n() && self.nm(i as int) == name@,
            r is None ==> forall|j: int| 0 <= j < self.n() ==> self.nm(j) != name@,
    {
        let n = self.entries.len();
        let mut i: usize = 0;
        while i < n
            invariant
                n == self.n(),
                i <= n,
                forall|j: int| 0 <= j < i ==> self.nm(j) != name@,
            decreases n - i,
        {
            if self.entries[i].service.name == *name {
                return Some(i);
            }
            i = i + 1;
        }
        None
    }

    /// Applies one health report. A `Starting` service that reports
    /// `Healthy` becomes `Running` and `ServiceRunning` is published; a
    /// `Running` one that reports `Unhealthy` is sent its termination
    /// signal, enters `InKilling` and its grace timer is armed. Every
    /// other combination — unknown name included — changes nothing.
    pub fn handle_health(&mut self, name: &String, health: Health, now_ms: u64) -> (r: (
        Vec<Event>,
        Vec<SigCmd>,
    ))
        requires
            old(self).wf(),
        ensures
            final(self).wf(),
            old(self).same_shape(*final(self)),
            final(self).trace@ == old(self).trace@ + r.0@,
            final(self).shutting_down == old(self).shutting_down,
            final(self).completed == old(self).completed,
            forall|k: int| 0 <= k < r.0@.len() ==> !((#[trigger] r.0@[k]) is ServiceStarted),
            forall|i: int|
                0 <= i < old(self).n() && old(self).nm(i) != name@ ==> final(self).entries@[i]
                    == old(self).entries@[i],
            forall|i: int|
                0 <= i < old(self).n() && old(self).nm(i) == name@ ==> {
                    let pre = old(self).entries@[i];
                    let post = final(self).entries@[i];
                    if pre.status is Starting && health is Healthy {
                        &&& post.status is Running
                        &&& post.pid == pre.pid
                        &&& post.attempts_used == pre.attempts_used
                        &&& r.0@.len() == 1
                        &&& (r.0@[0] matches Event::ServiceRunning(n) && n@ == name@)
                        &&& r.1@.len() == 0
                    } else if pre.status is Running && health is Unhealthy {
                        &&& post.status is InKilling
                        &&& post.pid == pre.pid
                        &&& post.attempts_used == pre.attempts_used
                        &&& post.kill_deadline_ms as int == if now_ms
                            + pre.service.termination.wait_ms <= u64::MAX as int {
                            now_ms + pre.service.termination.wait_ms
                        } else {
                            u64::MAX as int
                        }
                        &&& r.0@.len() == 1
                        &&& (r.0@[0] matches Event::ShutdownInitiated(n) && n@ == name@)
                        &&& r.1@.len() == 1
                        &&& r.1@[0].pid == pre.pid->0
                        &&& r.1@[0].signal == signal_number_spec(pre.service.termination.signal@)->0
                    } else {
                        &&& post == pre
                        &&& r.0@.len() == 0
                        &&& r.1@.len() == 0
                    }
                },
    {
        let found = self.find_index_by_name(name);
        let mut events: Vec<Event> = Vec::new();
        let mut cmds: Vec<SigCmd> = Vec::new();
        match found {
            None => {
                proof {
                    assert(self.trace@ =~= self.trace@ + events@);
                }
            },
            Some(i) => {
                proof {
                    assert(self.entry_ok(i as int));
                    assert(self.entry_trace_ok(i as int));
                }
                let starting = match self.entries[i].status {
                    ServiceStatus::Starting => true,
                    _ => false,
                };
                let running = match self.entries[i].status {
                    ServiceStatus::Running => true,
                    _ => false,
                };
                let healthy = match health {
                    Health::Healthy => true,
                    Health::Unhealthy => false,
                };
                if starting && healthy {
                    let ev_name = self.entries[i].service.name.clone();
                    let ghost pre_self = *self;
                    {
                        let e = &mut self.entries[i];
                        e.status = ServiceStatus::Running;
                    }
                    events.push(Event::ServiceRunning(ev_name));
                    self.trace = Ghost(self.trace@ + events@);
                    proof {
                        let tr = pre_self.trace@;
                        let ex = events@;
                        lemma_counts_singleton(ex[0]);
                        assert(ex =~= seq![ex[0]]);
                        assert forall|n: Seq<char>|
                            count_started(tr + ex, n) == count_started(tr, n) && count_exited(
                                tr + ex,
                                n,
                            ) == count_exited(tr, n) by {
                            lemma_counts_concat(tr, ex, n);
                        }
                        assert(count_running(tr + ex, name@) == count_running(tr, name@) + 1) by {
                            lemma_counts_concat(tr, ex, name@);
                        }
                        assert forall|n: Seq<char>| #[trigger]
                            count_running(tr + ex, n) >= count_running(tr, n) by {
                            lemma_counts_concat(tr, ex, n);
                        }
                        assert(count_completed(tr + ex) == count_completed(tr)) by {
                            lemma_counts_concat(tr, ex, name@);
                        }
                        assert forall|j: int| 0 <= j < self.n() implies self.entry_ok(j) by {
                            assert(pre_self.entry_ok(j));
                        }
                        assert forall|j: int| 0 <= j < self.n() implies self.entry_trace_ok(j) by {
                            assert(pre_self.entry_trace_ok(j));
                            assert(self.nm(j) == pre_self.nm(j));
                        }
                        lemma_names_pids_frame(pre_self, *self);
                        lemma_completed_frame(pre_self, *self, ex);
                        assert(self.wf());
                    }
                } else if running && !healthy {
                    let ev_name = self.entries[i].service.name.clone();
                    let sig = match signal_handling::signal_number(
                        &self.entries[i].service.termination.signal,
                    ) {
                        Some(s) => s,
                        None => {
                            proof {
                                assert(false);
                            }
                            15
                        },
                    };
                    let deadline = sat_add_u64(now_ms, self.entries[i].service.termination.wait_ms);
                    let pid = match self.entries[i].pid {
                        Some(p) => p,
                        None => {
                            proof {
                                assert(false);
                            }
                            0
                        },
                    };
                    let ghost pre_self = *self;
                    {
                        let e = &mut self.entries[i];
                        e.status = ServiceStatus::InKilling;
                        e.kill_deadline_ms = deadline;
                    }
                    events.push(Event::ShutdownInitiated(ev_name));
                    cmds.push(SigCmd { pid, signal: sig });
                    self.trace = Ghost(self.trace@ + events@);
                    proof {
                        let tr = pre_self.trace@;
                        let ex = events@;
                        assert(no_counted(ex));
                        lemma_counts_zero(ex);
                        lemma_uncounted_extension(tr, ex);
                        assert forall|j: int| 0 <= j < self.n() implies self.entry_ok(j) by {
                            assert(pre_self.entry_ok(j));
                        }
                        assert forall|j: int| 0 <= j < self.n() implies self.entry_trace_ok(j) by {
                            assert(pre_self.entry_trace_ok(j));
                            assert(self.nm(j) == pre_self.nm(j));
                        }
                        lemma_names_pids_frame(pre_self, *self);
                        lemma_completed_frame(pre_self, *self, ex);
                        assert(self.wf());
                    }
                } else {
                    proof {
                        assert(self.trace@ =~= self.trace@ + events@);
                    }
                }
            },
        }
        (events, cmds)
    }

    /// Freezes new starts and turns every non-terminal entry down: live
    /// services get a termination signal — `SIGKILL` when `force` — and
    /// enter `InKilling` with their grace timer armed; never-started ones
    /// are closed as `Finished`. Publishes `ShutdownCompleted` when that
    /// already settles every entry.
    fn begin_shutdown(&mut self, force: bool, now_ms: u64) -> (r: (Vec<Event>, Vec<SigCmd>))
        requires
            old(self).wf(),
        ensures
            final(self).wf(),
            old(self).same_shape(*final(self)),
            final(self).shutting_down,
            final(self).completed == (old(self).completed || (forall|i: int|
                0 <= i < old(self).n() ==> is_terminal(
                    shutdown_status((#[trigger] old(self).entries@[i]).status),
                ))),
            final(self).trace@ == old(self).trace@ + r.0@,
            forall|k: int| 0 <= k < r.0@.len() ==> !((#[trigger] r.0@[k]) is ServiceStarted),
            forall|i: int|
                0 <= i < old(self).n() ==> {
                    let a = old(self).entries@[i];
                    let b = #[trigger] final(self).entries@[i];
                    &&& b.status == shutdown_status(a.status)
                    &&& b.pid == a.pid
                    &&& b.attempts_used == a.attempts_used
                    &&& b.next_start_ms == a.next_start_ms
                    &&& (is_active(a.status) ==> b.kill_deadline_ms as int == armed_deadline(
                        now_ms,
                        a.service.termination.wait_ms,
                    ))
                },
            forall|i: int|
                0 <= i < old(self).n() && is_terminal((#[trigger] old(self).entries@[i]).status)
                    ==> final(self).entries@[i] == old(self).entries@[i],
            forall|k: int| 0 <= k < r.1@.len() ==> cmd_ok(*old(self), #[trigger] r.1@[k], force),
            forall|k: int|
                0 <= k < r.0@.len() ==> ((#[trigger] r.0@[k]) is ShutdownInitiated || r.0@[k]
                    is ShutdownCompleted),
            forall|k: int| 0 <= k < r.0@.len() ==> initiated_sound(*old(self), #[trigger] r.0@[k]),
            forall|i: int|
                0 <= i < old(self).n() && is_active((#[trigger] old(self).entries@[i]).status)
                    ==> initiated_covered(r.0@, old(self).nm(i)),
            forall|i: int|
                0 <= i < old(self).n() && is_active((#[trigger] old(self).entries@[i]).status)
                    ==> pid_covered(r.1@, old(self).entries@[i].pid->0),
    {
        let ghost pre_self = *self;
        self.shutting_down = true;
        let mut events: Vec<Event> = Vec::new();
        let mut cmds: Vec<SigCmd> = Vec::new();
        let n = self.entries.len();
        let mut i: usize = 0;
        while i < n
            invariant
                n == self.n(),
                n == pre_self.n(),
                i <= n,
                self.shutting_down,
                self.completed == pre_self.completed,
                self.trace == pre_self.trace,
                pre_self.wf(),
                forall|j: int| i <= j < n ==> self.entries@[j] == pre_self.entries@[j],
                forall|j: int|
                    0 <= j < i ==> {
                        let a = pre_self.entries@[j];
                        let b = #[trigger] self.entries@[j];
                        &&& b.status == shutdown_status(a.status)
                        &&& b.pid == a.pid
                        &&& b.attempts_used == a.attempts_used
                        &&& b.next_start_ms == a.next_start_ms
                        &&& b.service == a.service
                        &&& b.deps@ == a.deps@
                        &&& (is_active(a.status) ==> b.kill_deadline_ms as int == armed_deadline(
                            now_ms,
                            a.service.termination.wait_ms,
                        ))
                    },
                forall|j: int|
                    0 <= j < i && is_terminal((#[trigger] pre_self.entries@[j]).status)
                        ==> self.entries@[j] == pre_self.entries@[j],
                forall|k: int| 0 <= k < events@.len() ==> (#[trigger] events@[k]) is ShutdownInitiated,
                forall|k: int|
                    0 <= k < events@.len() ==> initiated_sound(pre_self, #[trigger] events@[k]),
                forall|j: int|
                    0 <= j < i && is_active((#[trigger] pre_self.entries@[j]).status)
                        ==> initiated_covered(events@, pre_self.nm(j)),
                forall|k: int| 0 <= k < cmds@.len() ==> cmd_ok(pre_self, #[trigger] cmds@[k], force),
                forall|j: int|
                    0 <= j < i && is_active((#[trigger] pre_self.entries@[j]).status)
                        ==> pid_covered(cmds@, pre_self.entries@[j].pid->0),
            decreases n - i,
        {
            proof {
                assert(pre_self.entry_ok(i as int));
            }
            let ghost cmds0 = cmds@;
            let ghost ev0 = events@;
            let active = match self.entries[i].status {
                ServiceStatus::Starting => true,
                ServiceStatus::Running => true,
                ServiceStatus::InKilling => true,
                _ => false,
            };
            let initial = match self.entries[i].status {
                ServiceStatus::Initial => true,
                _ => false,
            };
            if active {
                let ev_name = self.entries[i].service.name.clone();
                let sig = if force {
                    9
                } else {
                    match signal_handling::signal_number(
                        &self.entries[i].service.termination.signal,
                    ) {
                        Some(s) => s,
                        None => {
                            proof {
                                assert(false);
                            }
                            15
                        },
                    }
                };
                let pid = match self.entries[i].pid {
                    Some(p) => p,
                    None => {
                        proof {
                            assert(false);
                        }
                        0
                    },
                };
                let deadline = sat_add_u64(now_ms, self.entries[i].service.termination.wait_ms);
                {
                    let e = &mut self.entries[i];
                    e.status = ServiceStatus::InKilling;
                    e.kill_deadline_ms = deadline;
                }
                events.push(Event::ShutdownInitiated(ev_name));
                cmds.push(SigCmd { pid, signal: sig });
                proof {
                    let iw = i as int;
                    assert(cmds@ == cmds0.push(SigCmd { pid, signal: sig }));
                    assert(cmd_matches(pre_self, SigCmd { pid, signal: sig }, force, iw));
                    assert(cmd_ok(pre_self, SigCmd { pid, signal: sig }, force));
                    let kn = ev0.len() as int;
                    assert(events@[kn] matches Event::ShutdownInitiated(n) && n@ == pre_self.nm(
                        iw,
                    ));
                    assert forall|k: int| 0 <= k < events@.len() implies initiated_sound(
                        pre_self,
                        #[trigger] events@[k],
                    ) by {
                        if k < ev0.len() {
                            assert(events@[k] == ev0[k]);
                        } else {
                            assert(is_active(pre_self.entries@[iw].status));
                        }
                    }
                    assert forall|j: int|
                        0 <= j < iw + 1 && is_active(
                            (#[trigger] pre_self.entries@[j]).status,
                        ) implies initiated_covered(events@, pre_self.nm(j)) by {
                        if j < iw {
                            let k0 = choose|k: int|
                                {
                                    &&& 0 <= k < ev0.len()
                                    &&& (#[trigger] ev0[k]) matches Event::ShutdownInitiated(n)
                                    &&& n@ == pre_self.nm(j)
                                };
                            assert(events@[k0] == ev0[k0]);
                            assert({
                                &&& 0 <= k0 < events@.len()
                                &&& events@[k0] matches Event::ShutdownInitiated(n)
                                &&& n@ == pre_self.nm(j)
                            });
                        } else {
                            assert({
                                &&& 0 <= kn < events@.len()
                                &&& events@[kn] matches Event::ShutdownInitiated(n)
                                &&& n@ == pre_self.nm(j)
                            });
                        }
                    }
                    assert forall|k: int| 0 <= k < cmds@.len() implies cmd_ok(
                        pre_self,
                        #[trigger] cmds@[k],
                        force,
                    ) by {
                        if k < cmds0.len() {
                            assert(cmds@[k] == cmds0[k]);
                        } else {
                            assert(cmds@[k] == SigCmd { pid, signal: sig });
                        }
                    }
                    assert forall|j: int|
                        0 <= j < iw + 1 && is_active(
                            (#[trigger] pre_self.entries@[j]).status,
                        ) implies pid_covered(cmds@, pre_self.entries@[j].pid->0) by {
                        if j < iw {
                            let k0 = choose|k: int|
                                0 <= k < cmds0.len() && (#[trigger] cmds0[k]).pid
                                    == pre_self.entries@[j].pid->0;
                            assert(cmds@[k0] == cmds0[k0]);
                            assert(0 <= k0 < cmds@.len() && cmds@[k0].pid
                                == pre_self.entries@[j].pid->0);
                        } else {
                            let kn = cmds0.len() as int;
                            assert(0 <= kn < cmds@.len() && cmds@[kn].pid
                                == pre_self.entries@[j].pid->0);
                        }
                    }
                }
            } else if initial {
                let e = &mut self.entries[i];
                e.status = ServiceStatus::Finished;
            }
            i = i + 1;
        }
        self.trace = Ghost(self.trace@ + events@);
        proof {
            let tr = pre_self.trace@;
            let ex = events@;
            assert(no_counted(ex));
            lemma_counts_zero(ex);
            lemma_uncounted_extension(tr, ex);
            assert forall|j: int| 0 <= j < self.n() implies self.entry_ok(j)
                && self.entry_trace_ok(j) by {
                assert(pre_self.entry_ok(j));
                assert(pre_self.entry_trace_ok(j));
                assert(self.nm(j) == pre_self.nm(j));
            }
            lemma_names_pids_frame(pre_self, *self);
            lemma_completed_frame(pre_self, *self, ex);
            assert(self.wf());
        }
        let ghost mid_self = *self;
        let mut done_ev = self.maybe_complete();
        let mut all_ev = events;
        let ghost ex1 = all_ev@;
        let ghost ex2 = done_ev@;
        proof {
            assert(pre_self.trace@ + (all_ev@ + done_ev@) =~= (pre_self.trace@ + all_ev@)
                + done_ev@);
            assert forall|i: int| 0 <= i < pre_self.n() implies mid_self.entries@[i].status
                == shutdown_status(pre_self.entries@[i].status) by {}
            if forall|i: int|
                0 <= i < pre_self.n() ==> is_terminal(
                    shutdown_status((#[trigger] pre_self.entries@[i]).status),
                ) {
                assert forall|i: int| 0 <= i < mid_self.n() implies is_terminal(
                    (#[trigger] mid_self.entries@[i]).status,
                ) by {
                    assert(is_terminal(shutdown_status(pre_self.entries@[i].status)));
                }
            } else {
                let w = choose|i: int|
                    0 <= i < pre_self.n() && !is_terminal(
                        shutdown_status((#[trigger] pre_self.entries@[i]).status),
                    );
                assert(!is_terminal(mid_self.entries@[w].status));
            }
        }
        all_ev.append(&mut done_ev);
        proof {
            assert forall|k: int|
                0 <= k < all_ev@.len() implies ((#[trigger] all_ev@[k]) is ShutdownInitiated
                || all_ev@[k] is ShutdownCompleted) && initiated_sound(pre_self, all_ev@[k]) by {
                if k < ex1.len() {
                    assert(all_ev@[k] == ex1[k]);
                } else {
                    assert(all_ev@[k] == ex2[k - ex1.len()]);
                }
            }
            assert forall|j: int|
                0 <= j < pre_self.n() && is_active(
                    (#[trigger] pre_self.entries@[j]).status,
                ) implies initiated_covered(all_ev@, pre_self.nm(j)) by {
                let k0 = choose|k: int|
                    {
                        &&& 0 <= k < ex1.len()
                        &&& (#[trigger] ex1[k]) matches Event::ShutdownInitiated(n)
                        &&& n@ == pre_self.nm(j)
                    };
                assert(all_ev@[k0] == ex1[k0]);
                assert({
                    &&& 0 <= k0 < all_ev@.len()
                    &&& all_ev@[k0] matches Event::ShutdownInitiated(n)
                    &&& n@ == pre_self.nm(j)
                });
            }
        }
        (all_ev, cmds)
    }

    /// Accounts the spawn the embedding program performed for entry `i`,
    /// which must have been eligible: `Initial`, dependencies `Running`,
    /// no shutdown pending. On success (`spawn_pid` holds the fresh,
    /// unused pid) the entry becomes `Starting` and `ServiceStarted`
    /// then `PidChanged` are published; every dependency had published
    /// its `ServiceRunning` strictly before this start. On failure
    /// `SpawnFailed` is published and the restart policy decides between
    /// another attempt and `Failed`, whose failure strategy may take the
    /// whole engine down.
    #[verifier::rlimit(80)]
    #[verifier::spinoff_prover]
    pub fn report_spawn(&mut self, i: usize, spawn_pid: Option<i32>, now_ms: u64) -> (r: (
        Vec<Event>,
        Vec<SigCmd>,
    ))
        requires
            old(self).wf(),
            i < old(self).n(),
            old(self).entries@[i as int].status is Initial,
            old(self).deps_running(i as int),
            !old(self).shutting_down,
            spawn_pid matches Some(p) ==> forall|j: int|
                0 <= j < old(self).n() ==> (#[trigger] old(self).entries@[j]).pid != Some(p),
        ensures
            final(self).wf(),
            old(self).same_shape(*final(self)),
            final(self).trace@ == old(self).trace@ + r.0@,
            spawn_pid matches Some(p) ==> {
                &&& final(self).entries@[i as int].status is Starting
                &&& final(self).entries@[i as int].pid == Some(p)
                &&& final(self).entries@[i as int].attempts_used == old(
                    self,
                ).entries@[i as int].attempts_used
                &&& (forall|j: int|
                    0 <= j < old(self).n() && j != i ==> final(self).entries@[j] == old(
                        self,
                    ).entries@[j])
                &&& !final(self).shutting_down
                &&& final(self).completed == old(self).completed
                &&& r.0@.len() == 2
                &&& (r.0@[0] matches Event::ServiceStarted(n) && n@ == old(self).nm(i as int))
                &&& (r.0@[1] matches Event::PidChanged(n, q) && n@ == old(self).nm(i as int) && q
                    == p)
                &&& r.1@.len() == 0
            },
            spawn_pid is Some ==> forall|k: int|
                0 <= k < old(self).entries@[i as int].deps@.len() ==> count_running(
                    old(self).trace@,
                    old(self).nm((#[trigger] old(self).entries@[i as int].deps@[k]) as int),
                ) >= 1,
            spawn_pid is None ==> {
                let e0 = old(self).entries@[i as int];
                let d = spawn_fail_decision(e0, false);
                &&& final(self).entries@[i as int].status == d
                &&& final(self).entries@[i as int].pid is None
                &&& r.0@.len() >= 1
                &&& (r.0@[0] matches Event::SpawnFailed(n) && n@ == old(self).nm(i as int))
                &&& (forall|k: int| 0 <= k < r.0@.len() ==> !((#[trigger] r.0@[k]) is ServiceStarted))
                &&& final(self).completed == (forall|j: int|
                    0 <= j < final(self).n() ==> is_terminal(
                        (#[trigger] final(self).entries@[j]).status,
                    ))
                &&& (d is Initial ==> {
                    &&& r.0@.len() == 1
                    &&& final(self).entries@[i as int].attempts_used == bump_attempts(
                        e0.attempts_used,
                    )
                    &&& final(self).entries@[i as int].next_start_ms as int == (if now_ms
                        + e0.service.restart.backoff_ms <= u64::MAX as int {
                        now_ms + e0.service.restart.backoff_ms
                    } else {
                        u64::MAX as int
                    })
                    &&& (forall|j: int|
                        0 <= j < old(self).n() && j != i ==> final(self).entries@[j] == old(
                            self,
                        ).entries@[j])
                    &&& !final(self).shutting_down
                    &&& r.1@.len() == 0
                })
                &&& (d is Failed && e0.service.failure is Ignore ==> {
                    &&& (forall|j: int|
                        0 <= j < old(self).n() && j != i ==> final(self).entries@[j] == old(
                            self,
                        ).entries@[j])
                    &&& !final(self).shutting_down
                    &&& r.1@.len() == 0
                    &&& r.0@.len() <= 2
                    &&& (forall|k: int|
                        1 <= k < r.0@.len() ==> (#[trigger] r.0@[k]) is ShutdownCompleted)
                })
                &&& (d is Failed && !(e0.service.failure is Ignore) ==> {
                    let force = e0.service.failure is KillAll;
                    &&& (forall|k: int|
                        1 <= k < r.0@.len() ==> ((#[trigger] r.0@[k]) is ShutdownInitiated
                            || r.0@[k] is ShutdownCompleted))
                    &&& (forall|k: int|
                        0 <= k < r.0@.len() ==> initiated_sound(*old(self), #[trigger] r.0@[k]))
                    &&& (forall|j2: int|
                        0 <= j2 < old(self).n() && is_active(
                            (#[trigger] old(self).entries@[j2]).status,
                        ) ==> initiated_covered(r.0@, old(self).nm(j2)))
                    &&& final(self).shutting_down
                    &&& (forall|j: int|
                        0 <= j < old(self).n() && j != i ==> {
                            let b = #[trigger] final(self).entries@[j];
                            b.status == shutdown_status(old(self).entries@[j].status) && b.pid
                                == old(self).entries@[j].pid
                        })
                    &&& (forall|k: int|
                        0 <= k < r.1@.len() ==> cmd_ok(*old(self), #[trigger] r.1@[k], force))
                    &&& (forall|j: int|
                        0 <= j < old(self).n() && is_active(
                            (#[trigger] old(self).entries@[j]).status,
                        ) ==> pid_covered(r.1@, old(self).entries@[j].pid->0))
                })
            },
    {
        let ghost pre_self = *self;
        proof {
            assert(pre_self.entry_ok(i as int));
            assert(pre_self.entry_trace_ok(i as int));
            if pre_self.completed {
                assert(is_terminal(pre_self.entries@[i as int].status));
            }
            assert(!pre_self.completed);
        }
        let mut events: Vec<Event> = Vec::new();
        let mut cmds: Vec<SigCmd> = Vec::new();
        match spawn_pid {
            Some(p) => {
                let ev_name = self.entries[i].service.name.clone();
                let ev_name2 = self.entries[i].service.name.clone();
                {
                    let e = &mut self.entries[i];
                    e.status = ServiceStatus::Starting;
                    e.pid = Some(p);
                }
                events.push(Event::ServiceStarted(ev_name));
                events.push(Event::PidChanged(ev_name2, p));
                self.trace = Ghost(self.trace@ + events@);
                proof {
                    let iw = i as int;
                    let tr = pre_self.trace@;
                    let ex = events@;
                    let me = pre_self.nm(iw);
                    lemma_counts_singleton(ex[0]);
                    lemma_counts_singleton(ex[1]);
                    assert(ex.drop_last() =~= seq![ex[0]]);
                    assert(ex.last() == ex[1]);
                    assert forall|n2: Seq<char>|
                        count_started(ex, n2) == (if n2 == me {
                            1nat
                        } else {
                            0nat
                        }) && count_exited(ex, n2) == 0 && count_running(ex, n2) == 0 by {
                        assert(count_started(seq![ex[0]], n2) == (if n2 == me {
                            1nat
                        } else {
                            0nat
                        }));
                        assert(count_exited(seq![ex[0]], n2) == 0);
                        assert(count_running(seq![ex[0]], n2) == 0);
                    }
                    assert(count_completed(ex) == 0);
                    assert forall|n2: Seq<char>|
                        count_started(tr + ex, n2) == count_started(tr, n2) + count_started(ex, n2)
                            && count_exited(tr + ex, n2) == count_exited(tr, n2) && count_running(
                            tr + ex,
                            n2,
                        ) == count_running(tr, n2) by {
                        lemma_counts_concat(tr, ex, n2);
                    }
                    assert(count_completed(tr + ex) == count_completed(tr)) by {
                        lemma_counts_concat(tr, ex, me);
                    }
                    assert forall|j: int| 0 <= j < self.n() implies self.entry_ok(j)
                        && self.entry_trace_ok(j) by {
                        assert(pre_self.entry_ok(j));
                        assert(pre_self.entry_trace_ok(j));
                        assert(self.nm(j) == pre_self.nm(j));
                        if j != iw {
                            assert(pre_self.nm(j) != me);
                        }
                    }
                    assert forall|a: int, b: int|
                        0 <= a < self.n() && 0 <= b < self.n() && a != b implies self.nm(a)
                            != self.nm(b) by {
                        assert(self.nm(a) == pre_self.nm(a));
                        assert(self.nm(b) == pre_self.nm(b));
                    }
                    assert forall|a: int, b: int|
                        0 <= a < self.n() && 0 <= b < self.n() && a != b && self.entries@[a].pid
                            is Some && self.entries@[b].pid is Some implies self.entries@[a].pid->0
                            != self.entries@[b].pid->0 by {
                        if a != iw && b != iw {
                            assert(self.entries@[a].pid == pre_self.entries@[a].pid);
                            assert(self.entries@[b].pid == pre_self.entries@[b].pid);
                        } else if a == iw {
                            assert(pre_self.entries@[b].pid != Some(p));
                        } else {
                            assert(pre_self.entries@[a].pid != Some(p));
                        }
                    }
                    assert(self.wf());
                    assert forall|k: int|
                        0 <= k < pre_self.entries@[iw].deps@.len() implies count_running(
                        tr,
                        pre_self.nm((#[trigger] pre_self.entries@[iw].deps@[k]) as int),
                    ) >= 1 by {
                        let dj = pre_self.entries@[iw].deps@[k] as int;
                        assert(pre_self.entries@[dj].status is Running);
                        assert(pre_self.entry_trace_ok(dj));
                    }
                }
            },
            None => {
                let ev_name = self.entries[i].service.name.clone();
                events.push(Event::SpawnFailed(ev_name));
                let wants = match self.entries[i].service.restart.strategy {
                    RestartStrategy::Always => true,
                    RestartStrategy::OnFailure => true,
                    RestartStrategy::Never => false,
                };
                let attempts = self.entries[i].service.restart.attempts;
                let used = self.entries[i].attempts_used;
                let budget = attempts == 0 || used < attempts;
                if wants && budget {
                    let ns = sat_add_u64(now_ms, self.entries[i].service.restart.backoff_ms);
                    let bumped = if used < u32::MAX {
                        used + 1
                    } else {
                        used
                    };
                    {
                        let e = &mut self.entries[i];
                        e.status = ServiceStatus::Initial;
                        e.attempts_used = bumped;
                        e.next_start_ms = ns;
                    }
                    self.trace = Ghost(self.trace@ + events@);
                    proof {
                        let tr = pre_self.trace@;
                        let ex = events@;
                        assert(no_counted(ex));
                        lemma_counts_zero(ex);
                        lemma_uncounted_extension(tr, ex);
                        assert forall|j: int| 0 <= j < self.n() implies self.entry_ok(j)
                            && self.entry_trace_ok(j) by {
                            assert(pre_self.entry_ok(j));
                            assert(pre_self.entry_trace_ok(j));
                            assert(self.nm(j) == pre_self.nm(j));
                        }
                        lemma_names_pids_frame(pre_self, *self);
                        lemma_completed_frame(pre_self, *self, ex);
                        assert(self.wf());
                        assert(!(forall|j: int|
                            0 <= j < self.n() ==> is_terminal(
                                (#[trigger] self.entries@[j]).status,
                            ))) by {
                            assert(!is_terminal(self.entries@[i as int].status));
                        }
                    }
                } else {
                    {
                        let e = &mut self.entries[i];
                        e.status = ServiceStatus::Failed;
                    }
                    self.trace = Ghost(self.trace@ + events@);
                    proof {
                        let tr = pre_self.trace@;
                        let ex = events@;
                        assert(no_counted(ex));
                        lemma_counts_zero(ex);
                        lemma_uncounted_extension(tr, ex);
                        assert forall|j: int| 0 <= j < self.n() implies self.entry_ok(j)
                            && self.entry_trace_ok(j) by {
                            assert(pre_self.entry_ok(j));
                            assert(pre_self.entry_trace_ok(j));
                            assert(self.nm(j) == pre_self.nm(j));
                        }
                        lemma_names_pids_frame(pre_self, *self);
                        lemma_completed_frame(pre_self, *self, ex);
                        assert(self.wf());
                    }
                    let ghost mid_self = *self;
                    let failure = self.entries[i].service.failure;
                    match failure {
                        FailureStrategy::Ignore => {
                            let mut ev2 = self.maybe_complete();
                            let ghost ex1 = events@;
                            let ghost ex2 = ev2@;
                            proof {
                                assert(pre_self.trace@ + (ex1 + ex2) =~= (pre_self.trace@ + ex1)
                                    + ex2);
                            }
                            events.append(&mut ev2);
                            proof {
                                assert forall|k: int|
                                    ex1.len() <= k < events@.len() implies (
                                #[trigger] events@[k]) is ShutdownCompleted by {
                                    assert(events@[k] == ex2[k - ex1.len()]);
                                }
                            }
                            proof {
                                assert forall|k: int| 0 <= k < events@.len() implies !((
                                #[trigger] events@[k]) is ServiceStarted) by {
                                    if k < ex1.len() {
                                        assert(events@[k] == ex1[k]);
                                    } else {
                                        assert(events@[k] == ex2[k - ex1.len()]);
                                    }
                                }
                                assert(self.entries@ == mid_self.entries@);
                                if self.completed {
                                    assert forall|j: int| 0 <= j < self.n() implies is_terminal(
                                        (#[trigger] self.entries@[j]).status,
                                    ) by {
                                        assert(is_terminal(mid_self.entries@[j].status));
                                    }
                                } else {
                                    let w = choose|j: int|
                                        0 <= j < mid_self.n() && !is_terminal(
                                            (#[trigger] mid_self.entries@[j]).status,
                                        );
                                    assert(!is_terminal(self.entries@[w].status));
                                }
                            }
                        },
                        FailureStrategy::KillAll => {
                            let (mut ev2, mut c2) = self.begin_shutdown(true, now_ms);
                            let ghost ex1 = events@;
                            let ghost ex2 = ev2@;
                            proof {
                                assert(pre_self.trace@ + (ex1 + ex2) =~= (pre_self.trace@ + ex1)
                                    + ex2);
                                assert forall|k: int| 0 <= k < c2@.len() implies cmd_ok(
                                    pre_self,
                                    #[trigger] c2@[k],
                                    true,
                                ) by {
                                    let j0 = choose|j: int| cmd_matches(mid_self, c2@[k], true, j);
                                    assert(j0 != i as int);
                                    assert(cmd_matches(pre_self, c2@[k], true, j0));
                                }
                                assert forall|j: int|
                                    0 <= j < pre_self.n() && is_active(
                                        (#[trigger] pre_self.entries@[j]).status,
                                    ) implies pid_covered(c2@, pre_self.entries@[j].pid->0) by {
                                    assert(j != i as int);
                                    assert(is_active(mid_self.entries@[j].status));
                                }
                            }
                            events.append(&mut ev2);
                            cmds.append(&mut c2);
                            proof {
                                let iw2 = i as int;
                                assert forall|k: int|
                                    0 <= k < events@.len() implies initiated_sound(
                                    pre_self,
                                    #[trigger] events@[k],
                                ) && (ex1.len() <= k ==> (events@[k] is ShutdownInitiated
                                    || events@[k] is ShutdownCompleted)) by {
                                    if k < ex1.len() {
                                        assert(events@[k] == ex1[k]);
                                    } else {
                                        assert(events@[k] == ex2[k - ex1.len()]);
                                        lemma_initiated_sound_lift(
                                            pre_self,
                                            mid_self,
                                            iw2,
                                            events@[k],
                                        );
                                    }
                                }
                                assert forall|j2: int|
                                    0 <= j2 < pre_self.n() && is_active(
                                        (#[trigger] pre_self.entries@[j2]).status,
                                    ) implies initiated_covered(events@, pre_self.nm(j2)) by {
                                    assert(j2 != iw2);
                                    assert(is_active(mid_self.entries@[j2].status));
                                    assert(mid_self.nm(j2) == pre_self.nm(j2));
                                    let k0 = choose|k: int|
                                        {
                                            &&& 0 <= k < ex2.len()
                                            &&& (#[trigger] ex2[k]) matches Event::ShutdownInitiated(
                                                n,
                                            )
                                            &&& n@ == mid_self.nm(j2)
                                        };
                                    assert(events@[ex1.len() + k0] == ex2[k0]);
                                    assert({
                                        &&& 0 <= ex1.len() + k0 < events@.len()
                                        &&& events@[ex1.len() + k0] matches Event::ShutdownInitiated(
                                            n,
                                        )
                                        &&& n@ == pre_self.nm(j2)
                                    });
                                }
                            }
                            proof {
                                assert forall|k: int| 0 <= k < events@.len() implies !((
                                #[trigger] events@[k]) is ServiceStarted) by {
                                    if k < ex1.len() {
                                        assert(events@[k] == ex1[k]);
                                    } else {
                                        assert(events@[k] == ex2[k - ex1.len()]);
                                    }
                                }
                                if self.completed {
                                    assert forall|j: int| 0 <= j < self.n() implies is_terminal(
                                        (#[trigger] self.entries@[j]).status,
                                    ) by {
                                        assert(is_terminal(
                                            shutdown_status(mid_self.entries@[j].status),
                                        ));
                                        assert(self.entries@[j].status == shutdown_status(
                                            mid_self.entries@[j].status,
                                        ));
                                    }
                                } else {
                                    let w = choose|j: int|
                                        0 <= j < mid_self.n() && !is_terminal(
                                            shutdown_status(
                                                (#[trigger] mid_self.entries@[j]).status,
                                            ),
                                        );
                                    assert(self.entries@[w].status == shutdown_status(
                                        mid_self.entries@[w].status,
                                    ));
                                    assert(!is_terminal(self.entries@[w].status));
                                }
                            }
                        },
                        FailureStrategy::ShutdownGracefully => {
                            let (mut ev2, mut c2) = self.begin_shutdown(false, now_ms);
                            let ghost ex1 = events@;
                            let ghost ex2 = ev2@;
                            proof {
                                assert(pre_self.trace@ + (ex1 + ex2) =~= (pre_self.trace@ + ex1)
                                    + ex2);
                                assert forall|k: int| 0 <= k < c2@.len() implies cmd_ok(
                                    pre_self,
                                    #[trigger] c2@[k],
                                    false,
                                ) by {
                                    let j0 = choose|j: int| cmd_matches(mid_self, c2@[k], false, j);
                                    assert(j0 != i as int);
                                    assert(cmd_matches(pre_self, c2@[k], false, j0));
                                }
                                assert forall|j: int|
                                    0 <= j < pre_self.n() && is_active(
                                        (#[trigger] pre_self.entries@[j]).status,
                                    ) implies pid_covered(c2@, pre_self.entries@[j].pid->0) by {
                                    assert(j != i as int);
                                    assert(is_active(mid_self.entries@[j].status));
                                }
                            }
                            events.append(&mut ev2);
                            cmds.append(&mut c2);
                            proof {
                                let iw2 = i as int;
                                assert forall|k: int|
                                    0 <= k < events@.len() implies initiated_sound(
                                    pre_self,
                                    #[trigger] events@[k],
                                ) && (ex1.len() <= k ==> (events@[k] is ShutdownInitiated
                                    || events@[k] is ShutdownCompleted)) by {
                                    if k < ex1.len() {
                                        assert(events@[k] == ex1[k]);
                                    } else {
                                        assert(events@[k] == ex2[k - ex1.len()]);
                                        lemma_initiated_sound_lift(
                                            pre_self,
                                            mid_self,
                                            iw2,
                                            events@[k],
                                        );
                                    }
                                }
                                assert forall|j2: int|
                                    0 <= j2 < pre_self.n() && is_active(
                                        (#[trigger] pre_self.entries@[j2]).status,
                                    ) implies initiated_covered(events@, pre_self.nm(j2)) by {
                                    assert(j2 != iw2);
                                    assert(is_active(mid_self.entries@[j2].status));
                                    assert(mid_self.nm(j2) == pre_self.nm(j2));
                                    let k0 = choose|k: int|
                                        {
                                            &&& 0 <= k < ex2.len()
                                            &&& (#[trigger] ex2[k]) matches Event::ShutdownInitiated(
                                                n,
                                            )
                                            &&& n@ == mid_self.nm(j2)
                                        };
                                    assert(events@[ex1.len() + k0] == ex2[k0]);
                                    assert({
                                        &&& 0 <= ex1.len() + k0 < events@.len()
                                        &&& events@[ex1.len() + k0] matches Event::ShutdownInitiated(
                                            n,
                                        )
                                        &&& n@ == pre_self.nm(j2)
                                    });
                                }
                            }
                            proof {
                                assert forall|k: int| 0 <= k < events@.len() implies !((
                                #[trigger] events@[k]) is ServiceStarted) by {
                                    if k < ex1.len() {
                                        assert(events@[k] == ex1[k]);
                                    } else {
                                        assert(events@[k] == ex2[k - ex1.len()]);
                                    }
                                }
                                if self.completed {
                                    assert forall|j: int| 0 <= j < self.n() implies is_terminal(
                                        (#[trigger] self.entries@[j]).status,
                                    ) by {
                                        assert(is_terminal(
                                            shutdown_status(mid_self.entries@[j].status),
                                        ));
                                        assert(self.entries@[j].status == shutdown_status(
                                            mid_self.entries@[j].status,
                                        ));
                                    }
                                } else {
                                    let w = choose|j: int|
                                        0 <= j < mid_self.n() && !is_terminal(
                                            shutdown_status(
                                                (#[trigger] mid_self.entries@[j]).status,
                                            ),
                                        );
                                    assert(self.entries@[w].status == shutdown_status(
                                        mid_self.entries@[w].status,
                                    ));
                                    assert(!is_terminal(self.entries@[w].status));
                                }
                            }
                        },
                    }
                }
            },
        }
        (events, cmds)
    }

    /// Attributes a harvested `(pid, exit status)` to the service whose
    /// live child it was, publishes `ServiceExited`, clears the pid and
    /// applies the state machine: a killed service is `Finished`; else
    /// the restart policy may schedule another attempt after its
    /// backoff, unless shutdown is pending or the budget is spent; else
    /// the exit settles as `Success` or `Failed`, and a failed service's
    /// failure strategy may take the whole engine down. A pid belonging
    /// to no service — an orphan the engine reaped — changes nothing.
    #[verifier::rlimit(80)]
    #[verifier::spinoff_prover]
    pub fn handle_process_exited(&mut self, pid: i32, exit_code: i32, now_ms: u64) -> (r: (
        Vec<Event>,
        Vec<SigCmd>,
    ))
        requires
            old(self).wf(),
        ensures
            final(self).wf(),
            old(self).same_shape(*final(self)),
            final(self).trace@ == old(self).trace@ + r.0@,
            old(self).shutting_down ==> final(self).shutting_down,
            forall|k: int| 0 <= k < r.0@.len() ==> !((#[trigger] r.0@[k]) is ServiceStarted),
            (forall|j: int|
                0 <= j < old(self).n() ==> (#[trigger] old(self).entries@[j]).pid != Some(pid))
                ==> {
                &&& final(self).entries@ == old(self).entries@
                &&& final(self).shutting_down == old(self).shutting_down
                &&& final(self).completed == old(self).completed
                &&& r.0@.len() == 0
                &&& r.1@.len() == 0
            },
            forall|j: int|
                0 <= j < old(self).n() && (#[trigger] old(self).entries@[j]).pid == Some(pid)
                    ==> {
                    let e0 = old(self).entries@[j];
                    let d = exit_decision(e0, exit_code, old(self).shutting_down);
                    &&& final(self).entries@[j].status == d
                    &&& final(self).entries@[j].pid is None
                    &&& r.0@.len() >= 1
                    &&& (r.0@[0] matches Event::ServiceExited(n, c) && n@ == old(self).nm(j) && c
                        == exit_code)
                    &&& final(self).completed == (forall|j2: int|
                        0 <= j2 < final(self).n() ==> is_terminal(
                            (#[trigger] final(self).entries@[j2]).status,
                        ))
                    &&& (d is Initial ==> {
                        &&& r.0@.len() == 1
                        &&& final(self).entries@[j].attempts_used == bump_attempts(
                            e0.attempts_used,
                        )
                        &&& final(self).entries@[j].next_start_ms as int == (if now_ms
                            + e0.service.restart.backoff_ms <= u64::MAX as int {
                            now_ms + e0.service.restart.backoff_ms
                        } else {
                            u64::MAX as int
                        })
                        &&& (forall|j2: int|
                            0 <= j2 < old(self).n() && j2 != j ==> final(self).entries@[j2]
                                == old(self).entries@[j2])
                        &&& final(self).shutting_down == old(self).shutting_down
                        &&& r.1@.len() == 0
                    })
                    &&& ((d is Success || d is Finished || (d is Failed && e0.service.failure
                        is Ignore)) ==> {
                        &&& r.0@.len() <= 2
                        &&& (forall|k: int|
                            1 <= k < r.0@.len() ==> (#[trigger] r.0@[k]) is ShutdownCompleted)
                        &&& final(self).entries@[j].attempts_used == e0.attempts_used
                        &&& (forall|j2: int|
                            0 <= j2 < old(self).n() && j2 != j ==> final(self).entries@[j2]
                                == old(self).entries@[j2])
                        &&& final(self).shutting_down == old(self).shutting_down
                        &&& r.1@.len() == 0
                    })
                    &&& (d is Failed && !(e0.service.failure is Ignore) ==> {
                        let force = e0.service.failure is KillAll;
                        &&& (forall|k: int|
                            1 <= k < r.0@.len() ==> ((#[trigger] r.0@[k]) is ShutdownInitiated
                                || r.0@[k] is ShutdownCompleted))
                        &&& (forall|k: int|
                            0 <= k < r.0@.len() ==> initiated_sound(
                                *old(self),
                                #[trigger] r.0@[k],
                            ))
                        &&& (forall|j2: int|
                            0 <= j2 < old(self).n() && j2 != j && is_active(
                                (#[trigger] old(self).entries@[j2]).status,
                            ) ==> initiated_covered(r.0@, old(self).nm(j2)))
                        &&& final(self).shutting_down
                        &&& (forall|j2: int|
                            0 <= j2 < old(self).n() && j2 != j ==> {
                                let b = #[trigger] final(self).entries@[j2];
                                b.status == shutdown_status(old(self).entries@[j2].status)
                                    && b.pid == old(self).entries@[j2].pid
                            })
                        &&& (forall|k: int|
                            0 <= k < r.1@.len() ==> cmd_ok(*old(self), #[trigger] r.1@[k], force))
                        &&& (forall|j2: int|
                            0 <= j2 < old(self).n() && j2 != j && is_active(
                                (#[trigger] old(self).entries@[j2]).status,
                            ) ==> pid_covered(r.1@, old(self).entries@[j2].pid->0))
                    })
                },
    {
        let ghost pre_self = *self;
        let mut events: Vec<Event> = Vec::new();
        let mut cmds: Vec<SigCmd> = Vec::new();
        let found = self.find_by_pid(pid);
        match found {
            None => {
                proof {
                    assert(self.trace@ =~= self.trace@ + events@);
                }
            },
            Some(i) => {
                let ghost iw = i as int;
                proof {
                    assert(pre_self.entry_ok(iw));
                    assert(pre_self.entry_trace_ok(iw));
                    assert(is_active(pre_self.entries@[iw].status));
                    if pre_self.completed {
                        assert(is_terminal(pre_self.entries@[iw].status));
                    }
                    assert(!pre_self.completed);
                }
                let ev_name = self.entries[i].service.name.clone();
                events.push(Event::ServiceExited(ev_name, exit_code));
                let was_running = match self.entries[i].status {
                    ServiceStatus::Running => true,
                    _ => false,
                };
                let was_inkilling = match self.entries[i].status {
                    ServiceStatus::InKilling => true,
                    _ => false,
                };
                let wants = match self.entries[i].service.restart.strategy {
                    RestartStrategy::Always => true,
                    RestartStrategy::OnFailure => exit_code != 0 || !was_running,
                    RestartStrategy::Never => false,
                };
                let attempts = self.entries[i].service.restart.attempts;
                let used = self.entries[i].attempts_used;
                let budget = attempts == 0 || used < attempts;
                let retry = !was_inkilling && wants && budget && !self.shutting_down;
                if was_inkilling {
                    let e = &mut self.entries[i];
                    e.status = ServiceStatus::Finished;
                    e.pid = None;
                } else if retry {
                    let ns = sat_add_u64(now_ms, self.entries[i].service.restart.backoff_ms);
                    let bumped = if used < u32::MAX {
                        used + 1
                    } else {
                        used
                    };
                    let e = &mut self.entries[i];
                    e.status = ServiceStatus::Initial;
                    e.pid = None;
                    e.attempts_used = bumped;
                    e.next_start_ms = ns;
                } else if was_running && exit_code == 0 {
                    let e = &mut self.entries[i];
                    e.status = ServiceStatus::Success;
                    e.pid = None;
                } else {
                    let e = &mut self.entries[i];
                    e.status = ServiceStatus::Failed;
                    e.pid = None;
                }
                self.trace = Ghost(self.trace@ + events@);
                proof {
                    let tr = pre_self.trace@;
                    let ex = events@;
                    let me = pre_self.nm(iw);
                    lemma_counts_singleton(ex[0]);
                    assert(ex =~= seq![ex[0]]);
                    assert forall|n2: Seq<char>|
                        count_exited(ex, n2) == (if n2 == me {
                            1nat
                        } else {
                            0nat
                        }) && count_started(ex, n2) == 0 && count_running(ex, n2) == 0 by {}
                    assert(count_completed(ex) == 0);
                    assert forall|n2: Seq<char>|
                        count_exited(tr + ex, n2) == count_exited(tr, n2) + count_exited(ex, n2)
                            && count_started(tr + ex, n2) == count_started(tr, n2)
                            && count_running(tr + ex, n2) == count_running(tr, n2) by {
                        lemma_counts_concat(tr, ex, n2);
                    }
                    assert(count_completed(tr + ex) == count_completed(tr)) by {
                        lemma_counts_concat(tr, ex, me);
                    }
                    assert forall|j: int| 0 <= j < self.n() implies self.entry_ok(j)
                        && self.entry_trace_ok(j) by {
                        assert(pre_self.entry_ok(j));
                        assert(pre_self.entry_trace_ok(j));
                        assert(self.nm(j) == pre_self.nm(j));
                        if j != iw {
                            assert(pre_self.nm(j) != me);
                        }
                    }
                    lemma_names_pids_frame_weak(pre_self, *self);
                    lemma_completed_frame(pre_self, *self, ex);
                    assert(self.wf());
                }
                let ghost mid_self = *self;
                let failed = match self.entries[i].status {
                    ServiceStatus::Failed => true,
                    _ => false,
                };
                if failed {
                    let failure = self.entries[i].service.failure;
                    match failure {
                        FailureStrategy::Ignore => {
                            let mut ev2 = self.maybe_complete();
                            let ghost ex1 = events@;
                            let ghost ex2 = ev2@;
                            proof {
                                assert(pre_self.trace@ + (ex1 + ex2) =~= (pre_self.trace@ + ex1)
                                    + ex2);
                            }
                            events.append(&mut ev2);
                            proof {
                                assert forall|k: int|
                                    ex1.len() <= k < events@.len() implies (
                                #[trigger] events@[k]) is ShutdownCompleted by {
                                    assert(events@[k] == ex2[k - ex1.len()]);
                                }
                            }
                            proof {
                                assert forall|k: int| 0 <= k < events@.len() implies !((
                                #[trigger] events@[k]) is ServiceStarted) by {
                                    if k < ex1.len() {
                                        assert(events@[k] == ex1[k]);
                                    } else {
                                        assert(events@[k] == ex2[k - ex1.len()]);
                                    }
                                }
                                assert(self.entries@ == mid_self.entries@);
                                if self.completed {
                                    assert forall|j: int| 0 <= j < self.n() implies is_terminal(
                                        (#[trigger] self.entries@[j]).status,
                                    ) by {
                                        assert(is_terminal(mid_self.entries@[j].status));
                                    }
                                } else {
                                    let w = choose|j: int|
                                        0 <= j < mid_self.n() && !is_terminal(
                                            (#[trigger] mid_self.entries@[j]).status,
                                        );
                                    assert(!is_terminal(self.entries@[w].status));
                                }
                            }
                        },
                        FailureStrategy::KillAll => {
                            let (mut ev2, mut c2) = self.begin_shutdown(true, now_ms);
                            let ghost ex1 = events@;
                            let ghost ex2 = ev2@;
                            proof {
                                assert(pre_self.trace@ + (ex1 + ex2) =~= (pre_self.trace@ + ex1)
                                    + ex2);
                                assert forall|k: int| 0 <= k < c2@.len() implies cmd_ok(
                                    pre_self,
                                    #[trigger] c2@[k],
                                    true,
                                ) by {
                                    let j0 = choose|j: int| cmd_matches(mid_self, c2@[k], true, j);
                                    assert(j0 != iw);
                                    assert(cmd_matches(pre_self, c2@[k], true, j0));
                                }
                                assert forall|j: int|
                                    0 <= j < pre_self.n() && j != iw && is_active(
                                        (#[trigger] pre_self.entries@[j]).status,
                                    ) implies pid_covered(c2@, pre_self.entries@[j].pid->0) by {
                                    assert(is_active(mid_self.entries@[j].status));
                                }
                            }
                            events.append(&mut ev2);
                            cmds.append(&mut c2);
                            proof {
                                let iw2 = iw;
                                assert forall|k: int|
                                    0 <= k < events@.len() implies initiated_sound(
                                    pre_self,
                                    #[trigger] events@[k],
                                ) && (ex1.len() <= k ==> (events@[k] is ShutdownInitiated
                                    || events@[k] is ShutdownCompleted)) by {
                                    if k < ex1.len() {
                                        assert(events@[k] == ex1[k]);
                                    } else {
                                        assert(events@[k] == ex2[k - ex1.len()]);
                                        lemma_initiated_sound_lift(
                                            pre_self,
                                            mid_self,
                                            iw2,
                                            events@[k],
                                        );
                                    }
                                }
                                assert forall|j2: int|
                                    0 <= j2 < pre_self.n() && j2 != iw2 && is_active(
                                        (#[trigger] pre_self.entries@[j2]).status,
                                    ) implies initiated_covered(events@, pre_self.nm(j2)) by {
                                    assert(j2 != iw2);
                                    assert(is_active(mid_self.entries@[j2].status));
                                    assert(mid_self.nm(j2) == pre_self.nm(j2));
                                    let k0 = choose|k: int|
                                        {
                                            &&& 0 <= k < ex2.len()
                                            &&& (#[trigger] ex2[k]) matches Event::ShutdownInitiated(
                                                n,
                                            )
                                            &&& n@ == mid_self.nm(j2)
                                        };
                                    assert(events@[ex1.len() + k0] == ex2[k0]);
                                    assert({
                                        &&& 0 <= ex1.len() + k0 < events@.len()
                                        &&& events@[ex1.len() + k0] matches Event::ShutdownInitiated(
                                            n,
                                        )
                                        &&& n@ == pre_self.nm(j2)
                                    });
                                }
                            }
                            proof {
                                assert forall|k: int| 0 <= k < events@.len() implies !((
                                #[trigger] events@[k]) is ServiceStarted) by {
                                    if k < ex1.len() {
                                        assert(events@[k] == ex1[k]);
                                    } else {
                                        assert(events@[k] == ex2[k - ex1.len()]);
                                    }
                                }
                                if self.completed {
                                    assert forall|j: int| 0 <= j < self.n() implies is_terminal(
                                        (#[trigger] self.entries@[j]).status,
                                    ) by {
                                        assert(is_terminal(
                                            shutdown_status(mid_self.entries@[j].status),
                                        ));
                                        assert(self.entries@[j].status == shutdown_status(
                                            mid_self.entries@[j].status,
                                        ));
                                    }
                                } else {
                                    let w = choose|j: int|
                                        0 <= j < mid_self.n() && !is_terminal(
                                            shutdown_status(
                                                (#[trigger] mid_self.entries@[j]).status,
                                            ),
                                        );
                                    assert(self.entries@[w].status == shutdown_status(
                                        mid_self.entries@[w].status,
                                    ));
                                    assert(!is_terminal(self.entries@[w].status));
                                }
                            }
                        },
                        FailureStrategy::ShutdownGracefully => {
                            let (mut ev2, mut c2) = self.begin_shutdown(false, now_ms);
                            let ghost ex1 = events@;
                            let ghost ex2 = ev2@;
                            proof {
                                assert(pre_self.trace@ + (ex1 + ex2) =~= (pre_self.trace@ + ex1)
                                    + ex2);
                                assert forall|k: int| 0 <= k < c2@.len() implies cmd_ok(
                                    pre_self,
                                    #[trigger] c2@[k],
                                    false,
                                ) by {
                                    let j0 = choose|j: int| cmd_matches(mid_self, c2@[k], false, j);
                                    assert(j0 != iw);
                                    assert(cmd_matches(pre_self, c2@[k], false, j0));
                                }
                                assert forall|j: int|
                                    0 <= j < pre_self.n() && j != iw && is_active(
                                        (#[trigger] pre_self.entries@[j]).status,
                                    ) implies pid_covered(c2@, pre_self.entries@[j].pid->0) by {
                                    assert(is_active(mid_self.entries@[j].status));
                                }
                            }
                            events.append(&mut ev2);
                            cmds.append(&mut c2);
                            proof {
                                let iw2 = iw;
                                assert forall|k: int|
                                    0 <= k < events@.len() implies initiated_sound(
                                    pre_self,
                                    #[trigger] events@[k],
                                ) && (ex1.len() <= k ==> (events@[k] is ShutdownInitiated
                                    || events@[k] is ShutdownCompleted)) by {
                                    if k < ex1.len() {
                                        assert(events@[k] == ex1[k]);
                                    } else {
                                        assert(events@[k] == ex2[k - ex1.len()]);
                                        lemma_initiated_sound_lift(
                                            pre_self,
                                            mid_self,
                                            iw2,
                                            events@[k],
                                        );
                                    }
                                }
                                assert forall|j2: int|
                                    0 <= j2 < pre_self.n() && j2 != iw2 && is_active(
                                        (#[trigger] pre_self.entries@[j2]).status,
                                    ) implies initiated_covered(events@, pre_self.nm(j2)) by {
                                    assert(j2 != iw2);
                                    assert(is_active(mid_self.entries@[j2].status));
                                    assert(mid_self.nm(j2) == pre_self.nm(j2));
                                    let k0 = choose|k: int|
                                        {
                                            &&& 0 <= k < ex2.len()
                                            &&& (#[trigger] ex2[k]) matches Event::ShutdownInitiated(
                                                n,
                                            )
                                            &&& n@ == mid_self.nm(j2)
                                        };
                                    assert(events@[ex1.len() + k0] == ex2[k0]);
                                    assert({
                                        &&& 0 <= ex1.len() + k0 < events@.len()
                                        &&& events@[ex1.len() + k0] matches Event::ShutdownInitiated(
                                            n,
                                        )
                                        &&& n@ == pre_self.nm(j2)
                                    });
                                }
                            }
                            proof {
                                assert forall|k: int| 0 <= k < events@.len() implies !((
                                #[trigger] events@[k]) is ServiceStarted) by {
                                    if k < ex1.len() {
                                        assert(events@[k] == ex1[k]);
                                    } else {
                                        assert(events@[k] == ex2[k - ex1.len()]);
                                    }
                                }
                                if self.completed {
                                    assert forall|j: int| 0 <= j < self.n() implies is_terminal(
                                        (#[trigger] self.entries@[j]).status,
                                    ) by {
                                        assert(is_terminal(
                                            shutdown_status(mid_self.entries@[j].status),
                                        ));
                                        assert(self.entries@[j].status == shutdown_status(
                                            mid_self.entries@[j].status,
                                        ));
                                    }
                                } else {
                                    let w = choose|j: int|
                                        0 <= j < mid_self.n() && !is_terminal(
                                            shutdown_status(
                                                (#[trigger] mid_self.entries@[j]).status,
                                            ),
                                        );
                                    assert(self.entries@[w].status == shutdown_status(
                                        mid_self.entries@[w].status,
                                    ));
                                    assert(!is_terminal(self.entries@[w].status));
                                }
                            }
                        },
                    }
                } else {
                    let mut ev2 = self.maybe_complete();
                    let ghost ex1 = events@;
                    let ghost ex2 = ev2@;
                    proof {
                        assert(pre_self.trace@ + (ex1 + ex2) =~= (pre_self.trace@ + ex1) + ex2);
                    }
                    events.append(&mut ev2);
                    proof {
                        assert forall|k: int|
                            ex1.len() <= k < events@.len() implies (#[trigger] events@[k])
                            is ShutdownCompleted by {
                            assert(events@[k] == ex2[k - ex1.len()]);
                        }
                        if !is_terminal(mid_self.entries@[iw].status) {
                            assert(!(forall|j2: int|
                                0 <= j2 < mid_self.n() ==> is_terminal(
                                    (#[trigger] mid_self.entries@[j2]).status,
                                )));
                            assert(ex2.len() == 0);
                        }
                    }
                    proof {
                        assert forall|k: int| 0 <= k < events@.len() implies !((
                        #[trigger] events@[k]) is ServiceStarted) by {
                            if k < ex1.len() {
                                assert(events@[k] == ex1[k]);
                            } else {
                                assert(events@[k] == ex2[k - ex1.len()]);
                            }
                        }
                        assert(self.entries@ == mid_self.entries@);
                        if self.completed {
                            assert forall|j: int| 0 <= j < self.n() implies is_terminal(
                                (#[trigger] self.entries@[j]).status,
                            ) by {
                                assert(is_terminal(mid_self.entries@[j].status));
                            }
                        } else {
                            let w = choose|j: int|
                                0 <= j < mid_self.n() && !is_terminal(
                                    (#[trigger] mid_self.entries@[j]).status,
                                );
                            assert(!is_terminal(self.entries@[w].status));
                        }
                    }
                }
            },
        }
        (events, cmds)
    }

    /// Sends `SIGKILL` to every service whose grace period has elapsed:
    /// an `InKilling` entry stays `InKilling`, its deadline is re-armed,
    /// and `ForceKill` is published for it.
    pub fn due_force_kills(&mut self, now_ms: u64) -> (r: (Vec<Event>, Vec<SigCmd>))
        requires
            old(self).wf(),
        ensures
            final(self).wf(),
            old(self).same_shape(*final(self)),
            final(self).trace@ == old(self).trace@ + r.0@,
            final(self).shutting_down == old(self).shutting_down,
            final(self).completed == old(self).completed,
            forall|k: int| 0 <= k < r.0@.len() ==> (#[trigger] r.0@[k]) is ForceKill,
            forall|k: int|
                0 <= k < r.0@.len() ==> forcekill_sound(*old(self), #[trigger] r.0@[k], now_ms),
            forall|i: int|
                0 <= i < old(self).n() && kill_due(#[trigger] old(self).entries@[i], now_ms)
                    ==> forcekill_covered(r.0@, old(self).nm(i)),
            forall|i: int|
                0 <= i < old(self).n() ==> {
                    let a = old(self).entries@[i];
                    let b = #[trigger] final(self).entries@[i];
                    &&& b.status == a.status
                    &&& b.pid == a.pid
                    &&& b.attempts_used == a.attempts_used
                    &&& b.next_start_ms == a.next_start_ms
                    &&& (!kill_due(a, now_ms) ==> b == a)
                    &&& (kill_due(a, now_ms) ==> b.kill_deadline_ms as int == armed_deadline(
                        now_ms,
                        a.service.termination.wait_ms,
                    ))
                },
            forall|k: int| 0 <= k < r.1@.len() ==> kill_ok(*old(self), #[trigger] r.1@[k], now_ms),
            forall|i: int|
                0 <= i < old(self).n() && kill_due(#[trigger] old(self).entries@[i], now_ms)
                    ==> pid_covered(r.1@, old(self).entries@[i].pid->0),
    {
        let ghost pre_self = *self;
        let mut events: Vec<Event> = Vec::new();
        let mut cmds: Vec<SigCmd> = Vec::new();
        let n = self.entries.len();
        let mut i: usize = 0;
        while i < n
            invariant
                n == self.n(),
                n == pre_self.n(),
                i <= n,
                self.shutting_down == pre_self.shutting_down,
                self.completed == pre_self.completed,
                self.trace == pre_self.trace,
                pre_self.wf(),
                forall|j: int| i <= j < n ==> self.entries@[j] == pre_self.entries@[j],
                forall|j: int|
                    0 <= j < i ==> {
                        let a = pre_self.entries@[j];
                        let b = #[trigger] self.entries@[j];
                        &&& b.status == a.status
                        &&& b.pid == a.pid
                        &&& b.attempts_used == a.attempts_used
                        &&& b.next_start_ms == a.next_start_ms
                        &&& b.service == a.service
                        &&& b.deps@ == a.deps@
                        &&& (!kill_due(a, now_ms) ==> b == a)
                        &&& (kill_due(a, now_ms) ==> b.kill_deadline_ms as int == armed_deadline(
                            now_ms,
                            a.service.termination.wait_ms,
                        ))
                    },
                forall|k: int| 0 <= k < events@.len() ==> (#[trigger] events@[k]) is ForceKill,
                forall|k: int|
                    0 <= k < events@.len() ==> forcekill_sound(
                        pre_self,
                        #[trigger] events@[k],
                        now_ms,
                    ),
                forall|j: int|
                    0 <= j < i && kill_due(#[trigger] pre_self.entries@[j], now_ms)
                        ==> forcekill_covered(events@, pre_self.nm(j)),
                forall|k: int|
                    0 <= k < cmds@.len() ==> kill_ok(pre_self, #[trigger] cmds@[k], now_ms),
                forall|j: int|
                    0 <= j < i && kill_due(#[trigger] pre_self.entries@[j], now_ms)
                        ==> pid_covered(cmds@, pre_self.entries@[j].pid->0),
            decreases n - i,
        {
            proof {
                assert(pre_self.entry_ok(i as int));
            }
            let ghost cmds0 = cmds@;
            let ghost ev0 = events@;
            let inkilling = match self.entries[i].status {
                ServiceStatus::InKilling => true,
                _ => false,
            };
            if inkilling && self.entries[i].kill_deadline_ms <= now_ms {
                let ev_name = self.entries[i].service.name.clone();
                let pid = match self.entries[i].pid {
                    Some(p) => p,
                    None => {
                        proof {
                            assert(false);
                        }
                        0
                    },
                };
                let deadline = sat_add_u64(now_ms, self.entries[i].service.termination.wait_ms);
                {
                    let e = &mut self.entries[i];
                    e.kill_deadline_ms = deadline;
                }
                events.push(Event::ForceKill(ev_name));
                cmds.push(SigCmd { pid, signal: 9 });
                proof {
                    let iw = i as int;
                    assert(cmds@ == cmds0.push(SigCmd { pid, signal: 9 }));
                    assert(kill_due(pre_self.entries@[iw], now_ms));
                    assert(kill_ok(pre_self, SigCmd { pid, signal: 9 }, now_ms));
                    let kn = ev0.len() as int;
                    assert(events@[kn] matches Event::ForceKill(n) && n@ == pre_self.nm(iw));
                    assert forall|k: int| 0 <= k < events@.len() implies forcekill_sound(
                        pre_self,
                        #[trigger] events@[k],
                        now_ms,
                    ) by {
                        if k < ev0.len() {
                            assert(events@[k] == ev0[k]);
                        } else {
                            assert(kill_due(pre_self.entries@[iw], now_ms));
                        }
                    }
                    assert forall|j: int|
                        0 <= j < iw + 1 && kill_due(
                            #[trigger] pre_self.entries@[j],
                            now_ms,
                        ) implies forcekill_covered(events@, pre_self.nm(j)) by {
                        if j < iw {
                            let k0 = choose|k: int|
                                {
                                    &&& 0 <= k < ev0.len()
                                    &&& (#[trigger] ev0[k]) matches Event::ForceKill(n)
                                    &&& n@ == pre_self.nm(j)
                                };
                            assert(events@[k0] == ev0[k0]);
                            assert({
                                &&& 0 <= k0 < events@.len()
                                &&& events@[k0] matches Event::ForceKill(n)
                                &&& n@ == pre_self.nm(j)
                            });
                        } else {
                            assert({
                                &&& 0 <= kn < events@.len()
                                &&& events@[kn] matches Event::ForceKill(n)
                                &&& n@ == pre_self.nm(j)
                            });
                        }
                    }
                    assert forall|k: int| 0 <= k < cmds@.len() implies kill_ok(
                        pre_self,
                        #[trigger] cmds@[k],
                        now_ms,
                    ) by {
                        if k < cmds0.len() {
                            assert(cmds@[k] == cmds0[k]);
                        } else {
                            assert(cmds@[k] == SigCmd { pid, signal: 9 });
                        }
                    }
                    assert forall|j: int|
                        0 <= j < iw + 1 && kill_due(
                            #[trigger] pre_self.entries@[j],
                            now_ms,
                        ) implies pid_covered(cmds@, pre_self.entries@[j].pid->0) by {
                        if j < iw {
                            let k0 = choose|k: int|
                                0 <= k < cmds0.len() && (#[trigger] cmds0[k]).pid
                                    == pre_self.entries@[j].pid->0;
                            assert(cmds@[k0] == cmds0[k0]);
                            assert(0 <= k0 < cmds@.len() && cmds@[k0].pid
                                == pre_self.entries@[j].pid->0);
                        } else {
                            let kn = cmds0.len() as int;
                            assert(0 <= kn < cmds@.len() && cmds@[kn].pid
                                == pre_self.entries@[j].pid->0);
                        }
                    }
                }
            }
            i = i + 1;
        }
        self.trace = Ghost(self.trace@ + events@);
        proof {
            let tr = pre_self.trace@;
            let ex = events@;
            assert(no_counted(ex));
            lemma_counts_zero(ex);
            lemma_uncounted_extension(tr, ex);
            assert forall|j: int| 0 <= j < self.n() implies self.entry_ok(j)
                && self.entry_trace_ok(j) by {
                assert(pre_self.entry_ok(j));
                assert(pre_self.entry_trace_ok(j));
                assert(self.nm(j) == pre_self.nm(j));
            }
            lemma_names_pids_frame(pre_self, *self);
            lemma_completed_frame(pre_self, *self, ex);
            assert(self.wf());
        }
        (events, cmds)
    }

    /// Handles `ShutdownRequested`: freezes new starts, sends every live
    /// service its configured termination signal, arms grace timers, and
    /// closes never-started services. Repeated requests are benign.
    pub fn handle_shutdown_request(&mut self, now_ms: u64) -> (r: (Vec<Event>, Vec<SigCmd>))
        requires
            old(self).wf(),
        ensures
            final(self).wf(),
            old(self).same_shape(*final(self)),
            final(self).shutting_down,
            final(self).trace@ == old(self).trace@ + r.0@,
            forall|k: int| 0 <= k < r.0@.len() ==> !((#[trigger] r.0@[k]) is ServiceStarted),
            forall|i: int|
                0 <= i < old(self).n() ==> {
                    let a = old(self).entries@[i];
                    let b = #[trigger] final(self).entries@[i];
                    &&& b.status == shutdown_status(a.status)
                    &&& b.pid == a.pid
                    &&& b.attempts_used == a.attempts_used
                    &&& (is_active(a.status) ==> b.kill_deadline_ms as int == armed_deadline(
                        now_ms,
                        a.service.termination.wait_ms,
                    ))
                },
            forall|i: int|
                0 <= i < old(self).n() && is_terminal((#[trigger] old(self).entries@[i]).status)
                    ==> final(self).entries@[i] == old(self).entries@[i],
            forall|k: int| 0 <= k < r.1@.len() ==> cmd_ok(*old(self), #[trigger] r.1@[k], false),
            forall|k: int|
                0 <= k < r.0@.len() ==> ((#[trigger] r.0@[k]) is ShutdownInitiated || r.0@[k]
                    is ShutdownCompleted),
            forall|k: int| 0 <= k < r.0@.len() ==> initiated_sound(*old(self), #[trigger] r.0@[k]),
            forall|i: int|
                0 <= i < old(self).n() && is_active((#[trigger] old(self).entries@[i]).status)
                    ==> initiated_covered(r.0@, old(self).nm(i)),
            forall|i: int|
                0 <= i < old(self).n() && is_active((#[trigger] old(self).entries@[i]).status)
                    ==> pid_covered(r.1@, old(self).entries@[i].pid->0),
            final(self).completed == (old(self).completed || (forall|i: int|
                0 <= i < old(self).n() ==> is_terminal(
                    shutdown_status((#[trigger] old(self).entries@[i]).status),
                ))),
    {
        self.begin_shutdown(false, now_ms)
    }

    /// Publishes `ShutdownCompleted` the first time every entry is
    /// terminal; otherwise does nothing. The handlers call it after each
    /// settling transition; the embedding calls it too, so a service set
    /// that is terminal from the start — an empty one — still gets its
    /// sentinel.
    pub fn maybe_complete(&mut self) -> (ev: Vec<Event>)
        requires
            old(self).wf(),
        ensures
            final(self).wf(),
            old(self).same_shape(*final(self)),
            final(self).entries@ == old(self).entries@,
            final(self).shutting_down == old(self).shutting_down,
            final(self).trace@ == old(self).trace@ + ev@,
            forall|k: int| 0 <= k < ev@.len() ==> (#[trigger] ev@[k]) is ShutdownCompleted,
            final(self).completed == (old(self).completed || (forall|i: int|
                0 <= i < old(self).n() ==> is_terminal(
                    (#[trigger] old(self).entries@[i]).status,
                ))),
            ev@.len() <= 1,
            (ev@.len() == 1) == (!old(self).completed && (forall|i: int|
                0 <= i < old(self).n() ==> is_terminal(
                    (#[trigger] old(self).entries@[i]).status,
                ))),
    {
        let ghost pre_self = *self;
        let mut ev: Vec<Event> = Vec::new();
        if !self.completed && self.all_terminal() {
            ev.push(Event::ShutdownCompleted);
            self.completed = true;
            self.trace = Ghost(self.trace@ + ev@);
            proof {
                let tr = pre_self.trace@;
                let ex = ev@;
                lemma_counts_singleton(ex[0]);
                assert(ex =~= seq![ex[0]]);
                assert forall|n: Seq<char>|
                    count_started(tr + ex, n) == count_started(tr, n) && count_exited(tr + ex, n)
                        == count_exited(tr, n) && count_running(tr + ex, n) == count_running(
                        tr,
                        n,
                    ) by {
                    lemma_counts_concat(tr, ex, n);
                }
                assert(count_completed(tr + ex) == count_completed(tr) + 1) by {
                    lemma_counts_concat(tr, ex, Seq::empty());
                }
                assert forall|j: int| 0 <= j < self.n() implies self.entry_ok(j)
                    && self.entry_trace_ok(j) by {
                    assert(pre_self.entry_ok(j));
                    assert(pre_self.entry_trace_ok(j));
                    assert(self.nm(j) == pre_self.nm(j));
                }
                lemma_names_pids_frame(pre_self, *self);
                assert(self.wf());
            }
        } else {
            proof {
                assert(self.trace@ =~= self.trace@ + ev@);
            }
        }
        ev
    }

    /// Whether every entry is terminal: the condition for total shutdown
    /// to complete.
    pub fn all_terminal(&self) -> (r: bool)
        ensures
            r == (forall|i: int|
                0 <= i < self.n() ==> is_terminal((#[trigger] self.entries@[i]).status)),
    {
        let n = self.entries.len();
        let mut i: usize = 0;
        while i < n
            invariant
                n == self.n(),
                i <= n,
                forall|j: int| 0 <= j < i ==> is_terminal((#[trigger] self.entries@[j]).status),
            decreases n - i,
        {
            let terminal = match self.entries[i].status {
                ServiceStatus::Success => true,
                ServiceStatus::Failed => true,
                ServiceStatus::Finished => true,
                _ => false,
            };
            if !terminal {
                return false;
            }
            i = i + 1;
        }
        true
    }
}

/// Where a status is sent when shutdown begins: live services are put
/// `InKilling`, never-started ones are closed as `Finished`, terminal
/// ones stay.
pub open spec fn shutdown_status(s: ServiceStatus) -> ServiceStatus {
    if is_active(s) {
        ServiceStatus::InKilling
    } else if s is Initial {
        ServiceStatus::Finished
    } else {
        s
    }
}

/// Command `c` is one owed to entry `j` of `pre`: the entry is live and
/// holds `c.pid`, and the signal is `SIGKILL` under `force`, else the
/// entry's configured termination signal.
pub open spec fn cmd_matches(pre: Runtime, c: SigCmd, force: bool, j: int) -> bool {
    &&& 0 <= j < pre.n()
    &&& is_active(pre.entries@[j].status)
    &&& pre.entries@[j].pid == Some(c.pid)
    &&& c.signal == (if force {
        9u8
    } else {
        signal_number_spec(pre.entries@[j].service.termination.signal@)->0
    })
}

/// Some entry of `pre` is owed command `c`.
pub open spec fn cmd_ok(pre: Runtime, c: SigCmd, force: bool) -> bool {
    exists|j: int| cmd_matches(pre, c, force, j)
}

/// Some command of `cmds` addresses `pid`.
pub open spec fn pid_covered(cmds: Seq<SigCmd>, pid: i32) -> bool {
    exists|k: int| 0 <= k < cmds.len() && (#[trigger] cmds[k]).pid == pid
}

/// Some event of `ev` announces that `name`'s termination began.
pub open spec fn initiated_covered(ev: Seq<Event>, name: Seq<char>) -> bool {
    exists|k: int|
        {
            &&& 0 <= k < ev.len()
            &&& (#[trigger] ev[k]) matches Event::ShutdownInitiated(n)
            &&& n@ == name
        }
}

/// If `e` announces a termination beginning, it is for a live entry of
/// `pre`.
pub open spec fn initiated_sound(pre: Runtime, e: Event) -> bool {
    e matches Event::ShutdownInitiated(n) ==> exists|i: int|
        0 <= i < pre.n() && is_active((#[trigger] pre.entries@[i]).status) && pre.nm(i) == n@
}

/// Some event of `ev` announces a forced kill of `name`.
pub open spec fn forcekill_covered(ev: Seq<Event>, name: Seq<char>) -> bool {
    exists|k: int|
        {
            &&& 0 <= k < ev.len()
            &&& (#[trigger] ev[k]) matches Event::ForceKill(n)
            &&& n@ == name
        }
}

/// If `e` announces a forced kill, it is for an entry of `pre` whose
/// grace period has run out.
pub open spec fn forcekill_sound(pre: Runtime, e: Event, now_ms: u64) -> bool {
    e matches Event::ForceKill(n) ==> exists|i: int|
        0 <= i < pre.n() && kill_due(#[trigger] pre.entries@[i], now_ms) && pre.nm(i) == n@
}

/// The deadline a grace timer armed at `now_ms` is set to.
pub open spec fn armed_deadline(now_ms: u64, wait_ms: u64) -> int {
    if now_ms + wait_ms <= u64::MAX as int {
        now_ms + wait_ms
    } else {
        u64::MAX as int
    }
}

/// Entry `e`'s grace period has run out: it is `InKilling` and its
/// deadline has passed.
pub open spec fn kill_due(e: ServiceEntry, now_ms: u64) -> bool {
    e.status is InKilling && e.kill_deadline_ms <= now_ms
}

/// Command `c` is a `SIGKILL` owed to some entry whose grace period ran
/// out.
pub open spec fn kill_ok(pre: Runtime, c: SigCmd, now_ms: u64) -> bool {
    exists|j: int|
        0 <= j < pre.n() && kill_due(#[trigger] pre.entries@[j], now_ms) && pre.entries@[j].pid
            == Some(c.pid) && c.signal == 9u8
}

/// Whether the restart policy asks for another attempt after an exit:
/// `Always` always, `OnFailure` when the exit code is non-zero or the
/// service died before reaching `Running`, `Never` never.
pub open spec fn wants_restart(s: Service, was_running: bool, exit_code: i32) -> bool {
    match s.restart.strategy {
        RestartStrategy::Always => true,
        RestartStrategy::OnFailure => exit_code != 0 || !was_running,
        RestartStrategy::Never => false,
    }
}

/// Whether the attempt budget allows another restart: `attempts == 0`
/// imposes no bound.
pub open spec fn retry_budget_left(s: Service, used: u32) -> bool {
    s.restart.attempts == 0 || used < s.restart.attempts
}

/// The status a service takes when its process exit is attributed to it:
/// a killed service is `Finished`; otherwise the restart policy may send
/// it back to `Initial` unless shutdown is pending; otherwise a clean
/// exit from `Running` is `Success` and everything else `Failed`.
pub open spec fn exit_decision(e: ServiceEntry, exit_code: i32, shutting: bool) -> ServiceStatus {
    if e.status is InKilling {
        ServiceStatus::Finished
    } else if wants_restart(e.service, e.status is Running, exit_code) && retry_budget_left(
        e.service,
        e.attempts_used,
    ) && !shutting {
        ServiceStatus::Initial
    } else if e.status is Running && exit_code == 0 {
        ServiceStatus::Success
    } else {
        ServiceStatus::Failed
    }
}

/// The status a service takes when its spawn fails: retry if the policy
/// and budget allow — a spawn failure is a death before `Running` —
/// else `Failed`.
pub open spec fn spawn_fail_decision(e: ServiceEntry, shutting: bool) -> ServiceStatus {
    if wants_restart(e.service, false, 1) && retry_budget_left(e.service, e.attempts_used)
        && !shutting {
        ServiceStatus::Initial
    } else {
        ServiceStatus::Failed
    }
}

/// One more used attempt, saturating.
pub open spec fn bump_attempts(used: u32) -> u32 {
    if used < u32::MAX {
        (used + 1) as u32
    } else {
        used
    }
}

/// Adds two durations, saturating at the largest representable instant.
pub fn sat_add_u64(a: u64, b: u64) -> (r: u64)
    ensures
        r as int == if a + b <= u64::MAX as int {
            a + b
        } else {
            u64::MAX as int
        },
{
    if a <= u64::MAX - b {
        a + b
    } else {
        u64::MAX
    }
}

/// Resolves every `start_after` name to the index of a service bearing
/// it. Well-defined because a valid configuration has no unknown
/// dependency.
fn resolve_deps(services: &Vec<Service>) -> (r: Vec<Vec<usize>>)
    requires
        validate::valid_config(services@),
    ensures
        r@.len() == services@.len(),
        forall|i: int|
            0 <= i < services@.len() ==> (#[trigger] r@[i])@.len()
                == services@[i].start_after@.len(),
        forall|i: int, k: int|
            0 <= i < services@.len() && 0 <= k < r@[i]@.len() ==> (#[trigger] r@[i]@[k])
                < services@.len() && services@[r@[i]@[k] as int].name@
                == services@[i].start_after@[k]@,
{
    let n = services.len();
    let mut r: Vec<Vec<usize>> = Vec::new();
    let mut i: usize = 0;
    while i < n
        invariant
            n == services@.len(),
            i <= n,
            validate::valid_config(services@),
            r@.len() == i,
            forall|j: int, k: int|
                0 <= j < i && 0 <= k < services@[j].start_after@.len() ==> (#[trigger] r@[j]@[k])
                    < n && services@[r@[j]@[k] as int].name@ == services@[j].start_after@[k]@,
            forall|j: int|
                0 <= j < i ==> (#[trigger] r@[j])@.len() == services@[j].start_after@.len(),
        decreases n - i,
    {
        let names = &services[i].start_after;
        let m = names.len();
        let mut deps: Vec<usize> = Vec::new();
        let mut k: usize = 0;
        while k < m
            invariant
                n == services@.len(),
                i < n,
                m == names@.len(),
                names@ == services@[i as int].start_after@,
                validate::valid_config(services@),
                k <= m,
                deps@.len() == k,
                forall|t: int|
                    0 <= t < k ==> (#[trigger] deps@[t]) < n && services@[deps@[t] as int].name@
                        == services@[i as int].start_after@[t]@,
            decreases m - k,
        {
            proof {
                let ss = services@;
                assert(exists|j: int|
                    0 <= j < ss.len() && (#[trigger] ss[i as int].start_after@[k as int])@
                        == ss[j].name@);
                let j = choose|j: int|
                    0 <= j < ss.len() && ss[i as int].start_after@[k as int]@ == ss[j].name@;
                assert(ss[j].name@ == names@[k as int]@);
            }
            let d = find_name(services, &names[k]);
            deps.push(d);
            k = k + 1;
        }
        r.push(deps);
        i = i + 1;
    }
    r
}

/// Index of the service with the given name.
fn find_name(services: &Vec<Service>, name: &String) -> (r: usize)
    requires
        exists|j: int| 0 <= j < services@.len() && (#[trigger] services@[j]).name@ == name@,
    ensures
        r < services@.len(),
        services@[r as int].name@ == name@,
{
    let n = services.len();
    let mut j: usize = 0;
    while j < n
        invariant
            n == services@.len(),
            j <= n,
            exists|t: int| 0 <= t < n && (#[trigger] services@[t]).name@ == name@,
            forall|t: int| 0 <= t < j ==> (#[trigger] services@[t]).name@ != name@,
        decreases n - j,
    {
        if services[j].name == *name {
            return j;
        }
        j = j + 1;
    }
    proof {
        assert(false);
    }
    0
}


/// How many entries hold a pid.
pub open spec fn count_pids(es: Seq<ServiceEntry>) -> nat
    decreases es.len(),
{
    if es.len() == 0 {
        0
    } else {
        count_pids(es.drop_last()) + (if es.last().pid is Some {
            1nat
        } else {
            0nat
        })
    }
}

/// How many entries are in an active status.
pub open spec fn count_active_entries(es: Seq<ServiceEntry>) -> nat
    decreases es.len(),
{
    if es.len() == 0 {
        0
    } else {
        count_active_entries(es.drop_last()) + (if is_active(es.last().status) {
            1nat
        } else {
            0nat
        })
    }
}

/// Where pids are held exactly by the active entries, the two counts
/// agree.
proof fn lemma_pid_active_counts(es: Seq<ServiceEntry>)
    requires
        forall|i: int|
            0 <= i < es.len() ==> (((#[trigger] es[i]).pid is Some) <==> is_active(es[i].status)),
    ensures
        count_pids(es) == count_active_entries(es),
    decreases es.len(),
{
    if es.len() > 0 {
        assert(forall|i: int| 0 <= i < es.drop_last().len() ==> es.drop_last()[i] == es[i]);
        lemma_pid_active_counts(es.drop_last());
        assert(es.last() == es[es.len() - 1]);
    }
}

/// The engine holds no reference to a child but its pid, and a pid is
/// held exactly while its service is `Starting`, `Running` or
/// `InKilling`: so at any time the count of live children equals the
/// count of services in those statuses.
pub proof fn lemma_live_children(rt: Runtime)
    requires
        rt.wf(),
    ensures
        count_pids(rt.entries@) == count_active_entries(rt.entries@),
{
    assert forall|i: int|
        0 <= i < rt.entries@.len() implies (((#[trigger] rt.entries@[i]).pid is Some)
        <==> is_active(rt.entries@[i].status)) by {
        assert(rt.entry_ok(i));
    }
    lemma_pid_active_counts(rt.entries@);
}

/// Starts and exits of one service alternate, beginning with a start:
/// on the published trace each `ServiceExited` is matched by exactly
/// one earlier `ServiceStarted` of the same attempt, and one attempt is
/// open — one start not yet matched — exactly while the service is in
/// an active status.
pub proof fn lemma_exits_match_starts(rt: Runtime)
    requires
        rt.wf(),
    ensures
        forall|i: int|
            0 <= i < rt.n() ==> {
                let c_started = count_started(rt.trace@, rt.nm(i));
                let c_exited = count_exited(rt.trace@, rt.nm(i));
                &&& c_exited <= c_started <= c_exited + 1
                &&& ((c_started == c_exited + 1) == is_active(
                    (#[trigger] rt.entries@[i]).status,
                ))
            },
{
    assert forall|i: int|
        0 <= i < rt.n() implies {
        let c_started = count_started(rt.trace@, rt.nm(i));
        let c_exited = count_exited(rt.trace@, rt.nm(i));
        &&& c_exited <= c_started <= c_exited + 1
        &&& ((c_started == c_exited + 1) == is_active((#[trigger] rt.entries@[i]).status))
    } by {
        assert(rt.entry_trace_ok(i));
    }
}

/// After `ShutdownCompleted` is published every entry is terminal and
/// no pid remains held: nothing is left to reap.
pub proof fn lemma_no_zombies(rt: Runtime)
    requires
        rt.wf(),
        count_completed(rt.trace@) >= 1,
    ensures
        forall|i: int|
            0 <= i < rt.n() ==> is_terminal((#[trigger] rt.entries@[i]).status)
                && rt.entries@[i].pid is None,
{
    assert forall|i: int|
        0 <= i < rt.n() implies is_terminal((#[trigger] rt.entries@[i]).status)
        && rt.entries@[i].pid is None by {
        assert(rt.entry_ok(i));
    }
}

/// The attempt budget is respected: with a positive `attempts` bound,
/// `attempts_used` never exceeds it; `attempts == 0` imposes no bound.
pub proof fn lemma_attempts_bounded(rt: Runtime)
    requires
        rt.wf(),
    ensures
        forall|i: int|
            0 <= i < rt.n() && (#[trigger] rt.entries@[i]).service.restart.attempts > 0
                ==> rt.entries@[i].attempts_used <= rt.entries@[i].service.restart.attempts,
{
    assert forall|i: int|
        0 <= i < rt.n() && (#[trigger] rt.entries@[i]).service.restart.attempts
            > 0 implies rt.entries@[i].attempts_used
        <= rt.entries@[i].service.restart.attempts by {
        assert(rt.entry_ok(i));
    }
}

/// Once shutdown is pending no service is eligible to start, at any
/// instant: every path that publishes `ServiceStarted` demands
/// eligibility first, so no new start follows a shutdown request.
pub proof fn lemma_shutdown_gates_starts(rt: Runtime, now_ms: u64)
    requires
        rt.shutting_down,
    ensures
        forall|i: int| 0 <= i < rt.n() ==> !rt.eligible(i, now_ms),
{
}

} // verus!
