//! The health-check worker's table and decisions. The worker probes the
//! services it has seen start and not yet exit — a `Starting` service is
//! probed too, so that its first healthy report may promote it to
//! `Running`. It learns starts and exits from the bus. Performing an
//! HTTP GET or a file lookup is the embedding program's part;
//! classifying the outcome is decided here.
use crate::formats::Event;
use crate::formats::Health;
use crate::formats::Service;
use vstd::prelude::*;

verus! {

broadcast use vstd::seq_lib::lemma_seq_contains_after_push;

/// How often a service is probed.
pub const PROBE_INTERVAL_MS: u64 = 1000;

/// What kind of probe a service declared.
#[derive(Clone, Debug, PartialEq)]
pub enum Probe {
    /// No probe: the service counts as healthy once per interval.
    NoProbe,
    /// The file must exist.
    File(String),
    /// A GET of the URL must answer 2xx.
    Http(String),
}

/// One row of the worker's table.
pub struct ProbeEntry {
    pub name: String,
    pub probe: Probe,
    pub next_deadline_ms: u64,
    /// The service has started and not yet exited.
    pub live: bool,
}

/// The health-check worker's whole state: one row per service.
pub struct HealthChecker {
    pub table: Vec<ProbeEntry>,
}

/// The probe a descriptor declares: a file path wins over nothing, an
/// HTTP endpoint over both.
pub open spec fn probe_of_spec(s: Service) -> Probe {
    if s.healthiness.http_endpoint is Some {
        Probe::Http(s.healthiness.http_endpoint->0)
    } else if s.healthiness.file_path is Some {
        Probe::File(s.healthiness.file_path->0)
    } else {
        Probe::NoProbe
    }
}

/// Reads the declared probe out of a descriptor.
pub fn probe_of(s: &Service) -> (r: Probe)
    ensures
        r == probe_of_spec(*s),
{
    match &s.healthiness.http_endpoint {
        Some(url) => Probe::Http(url.clone()),
        None => match &s.healthiness.file_path {
            Some(path) => Probe::File(path.clone()),
            None => Probe::NoProbe,
        },
    }
}

/// A row is due when its service is live and its deadline has passed.
pub open spec fn due_spec(e: ProbeEntry, now_ms: u64) -> bool {
    e.live && e.next_deadline_ms <= now_ms
}

impl HealthChecker {
    /// Builds the table from the service list: nothing is live yet and
    /// every deadline is immediate.
    pub fn new(services: &Vec<Service>) -> (hc: HealthChecker)
        ensures
            hc.table@.len() == services@.len(),
            forall|i: int|
                0 <= i < services@.len() ==> {
                    &&& (#[trigger] hc.table@[i]).name@ == services@[i].name@
                    &&& hc.table@[i].probe == probe_of_spec(services@[i])
                    &&& hc.table@[i].next_deadline_ms == 0
                    &&& !hc.table@[i].live
                },
    {
        let mut table: Vec<ProbeEntry> = Vec::new();
        let mut i: usize = 0;
        while i < services.len()
            invariant
                i <= services@.len(),
                table@.len() == i,
                forall|j: int|
                    0 <= j < i ==> {
                        &&& (#[trigger] table@[j]).name@ == services@[j].name@
                        &&& table@[j].probe == probe_of_spec(services@[j])
                        &&& table@[j].next_deadline_ms == 0
                        &&& !table@[j].live
                    },
            decreases services@.len() - i,
        {
            let s = &services[i];
            table.push(
                ProbeEntry {
                    name: s.name.clone(),
                    probe: probe_of(s),
                    next_deadline_ms: 0,
                    live: false,
                },
            );
            i = i + 1;
        }
        HealthChecker { table }
    }

    /// Learns a service's liveness from the bus: `ServiceStarted` opens
    /// its row for probing — so a `Starting` service is probed, and its
    /// first healthy report may promote it — `ServiceRunning` keeps it
    /// open, and `ServiceExited` closes it. Any other event changes
    /// nothing.
    pub fn observe(&mut self, event: &Event)
        ensures
            final(self).table@.len() == old(self).table@.len(),
            forall|i: int|
                0 <= i < old(self).table@.len() ==> {
                    &&& (#[trigger] final(self).table@[i]).name == old(self).table@[i].name
                    &&& final(self).table@[i].probe == old(self).table@[i].probe
                    &&& final(self).table@[i].next_deadline_ms
                        == old(self).table@[i].next_deadline_ms
                    &&& final(self).table@[i].live == {
                        if *event matches Event::ServiceStarted(n) && n@ == old(
                            self,
                        ).table@[i].name@ {
                            true
                        } else if *event matches Event::ServiceRunning(n) && n@ == old(
                            self,
                        ).table@[i].name@ {
                            true
                        } else if *event matches Event::ServiceExited(n, _c) && n@ == old(
                            self,
                        ).table@[i].name@ {
                            false
                        } else {
                            old(self).table@[i].live
                        }
                    }
                },
    {
        match event {
            Event::ServiceStarted(n) => self.set_live(n, true),
            Event::ServiceRunning(n) => self.set_live(n, true),
            Event::ServiceExited(n, _code) => self.set_live(n, false),
            _ => (),
        }
    }

    /// Marks every row of the named service as live or not.
    fn set_live(&mut self, name: &String, value: bool)
        ensures
            final(self).table@.len() == old(self).table@.len(),
            forall|i: int|
                0 <= i < old(self).table@.len() ==> {
                    &&& (#[trigger] final(self).table@[i]).name == old(self).table@[i].name
                    &&& final(self).table@[i].probe == old(self).table@[i].probe
                    &&& final(self).table@[i].next_deadline_ms
                        == old(self).table@[i].next_deadline_ms
                    &&& final(self).table@[i].live == if old(self).table@[i].name@ == name@ {
                        value
                    } else {
                        old(self).table@[i].live
                    }
                },
    {
        let n = self.table.len();
        let mut i: usize = 0;
        while i < n
            invariant
                n == self.table@.len(),
                n == old(self).table@.len(),
                i <= n,
                forall|j: int| i <= j < n ==> self.table@[j] == old(self).table@[j],
                forall|j: int|
                    0 <= j < i ==> {
                        &&& (#[trigger] self.table@[j]).name == old(self).table@[j].name
                        &&& self.table@[j].probe == old(self).table@[j].probe
                        &&& self.table@[j].next_deadline_ms == old(self).table@[j].next_deadline_ms
                        &&& self.table@[j].live == if old(self).table@[j].name@ == name@ {
                            value
                        } else {
                            old(self).table@[j].live
                        }
                    },
            decreases n - i,
        {
            if self.table[i].name == *name {
                let row = &mut self.table[i];
                row.live = value;
            }
            i = i + 1;
        }
    }

    /// The rows due for a probe at `now_ms`: exactly those of live
    /// services whose deadline has passed, in table order.
    pub fn due(&self, now_ms: u64) -> (r: Vec<usize>)
        ensures
            forall|k: int|
                0 <= k < r@.len() ==> (#[trigger] r@[k]) < self.table@.len() && due_spec(
                    self.table@[r@[k] as int],
                    now_ms,
                ),
            forall|i: int|
                0 <= i < self.table@.len() && due_spec(self.table@[i], now_ms) ==> r@.contains(
                    i as usize,
                ),
            forall|k1: int, k2: int| 0 <= k1 < k2 < r@.len() ==> r@[k1] < r@[k2],
    {
        let n = self.table.len();
        let mut r: Vec<usize> = Vec::new();
        let mut i: usize = 0;
        while i < n
            invariant
                n == self.table@.len(),
                i <= n,
                forall|k: int|
                    0 <= k < r@.len() ==> (#[trigger] r@[k]) < i && due_spec(
                        self.table@[r@[k] as int],
                        now_ms,
                    ),
                forall|j: int|
                    0 <= j < i && due_spec(self.table@[j], now_ms) ==> r@.contains(j as usize),
                forall|k1: int, k2: int| 0 <= k1 < k2 < r@.len() ==> r@[k1] < r@[k2],
            decreases n - i,
        {
            let row = &self.table[i];
            if row.live && row.next_deadline_ms <= now_ms {
                r.push(i);
            }
            i = i + 1;
        }
        r
    }

    /// Accounts one performed probe: the row's next deadline moves one
    /// interval past `now_ms`, and the event to publish is returned.
    pub fn record_probe(&mut self, i: usize, now_ms: u64, outcome: Health) -> (ev: Event)
        requires
            i < old(self).table@.len(),
            now_ms <= u64::MAX - PROBE_INTERVAL_MS,
        ensures
            ev == Event::HealthCheck(old(self).table@[i as int].name, outcome),
            final(self).table@.len() == old(self).table@.len(),
            final(self).table@[i as int].name == old(self).table@[i as int].name,
            final(self).table@[i as int].probe == old(self).table@[i as int].probe,
            final(self).table@[i as int].live == old(self).table@[i as int].live,
            final(self).table@[i as int].next_deadline_ms == now_ms + PROBE_INTERVAL_MS,
            forall|j: int|
                0 <= j < old(self).table@.len() && j != i ==> final(self).table@[j] == old(
                    self,
                ).table@[j],
    {
        let row = &mut self.table[i];
        row.next_deadline_ms = now_ms + PROBE_INTERVAL_MS;
        Event::HealthCheck(row.name.clone(), outcome)
    }
}

/// The status code spelled by three ASCII digits, as found after the
/// first space of an HTTP status line; `None` when a byte is no digit.
pub fn status_from_digits(h: u8, t: u8, u: u8) -> (r: Option<u16>)
    ensures
        (r is Some) <==> (48 <= h <= 57 && 48 <= t <= 57 && 48 <= u <= 57),
        r matches Some(c) ==> c == (h - 48) * 100 + (t - 48) * 10 + (u - 48),
{
    if 48 <= h && h <= 57 && 48 <= t && t <= 57 && 48 <= u && u <= 57 {
        Some((h as u16 - 48) * 100 + (t as u16 - 48) * 10 + (u as u16 - 48))
    } else {
        None
    }
}

/// Classifies an HTTP answer: healthy exactly for a 2xx status.
pub fn classify_http_status(status: u16) -> (r: Health)
    ensures
        (r is Healthy) <==> (200 <= status < 300),
{
    if 200 <= status && status < 300 {
        Health::Healthy
    } else {
        Health::Unhealthy
    }
}

/// Classifies a file probe: healthy exactly when the path exists.
pub fn classify_file_probe(exists: bool) -> (r: Health)
    ensures
        (r is Healthy) <==> exists,
{
    if exists {
        Health::Healthy
    } else {
        Health::Unhealthy
    }
}

/// Classifies the absence of a probe: always healthy, emitted once per
/// interval so the runtime may observe liveness.
pub fn classify_no_probe() -> (r: Health)
    ensures
        r is Healthy,
{
    Health::Healthy
}

} // verus!
