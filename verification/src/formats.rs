//! Data model of the supervision engine: service descriptors, the status
//! state machine, and the events that the workers exchange over the bus.
use vstd::prelude::*;

verus! {

/// When a service that left its command line is started again.
#[derive(Clone, Copy, Debug, PartialEq, Eq, Structural)]
pub enum RestartStrategy {
    Always,
    OnFailure,
    Never,
}

/// What a service entering `Failed` does to the rest of the system.
#[derive(Clone, Copy, Debug, PartialEq, Eq, Structural)]
pub enum FailureStrategy {
    Ignore,
    KillAll,
    ShutdownGracefully,
}

/// The per-service state machine.
/// `Success`, `Failed` and `Finished` are terminal.
#[derive(Clone, Copy, Debug, PartialEq, Eq, Structural)]
pub enum ServiceStatus {
    Initial,
    Starting,
    Running,
    InKilling,
    Success,
    Failed,
    Finished,
}

/// Outcome of one health probe.
#[derive(Clone, Copy, Debug, PartialEq, Eq, Structural)]
pub enum Health {
    Healthy,
    Unhealthy,
}

/// Restart policy: strategy, backoff between attempts, and the attempt
/// budget (`attempts == 0` means unlimited).
#[derive(Clone, Debug, PartialEq)]
pub struct Restart {
    pub strategy: RestartStrategy,
    pub backoff_ms: u64,
    pub attempts: u32,
}

/// Signal name sent on shutdown and the grace period before `SIGKILL`.
#[derive(Clone, Debug, PartialEq)]
pub struct Termination {
    pub signal: String,
    pub wait_ms: u64,
}

/// Declared health probe: an HTTP endpoint, a file path, or neither
/// (no probe: the service counts as healthy once per interval).
#[derive(Clone, Debug, PartialEq)]
pub struct Healthiness {
    pub http_endpoint: Option<String>,
    pub file_path: Option<String>,
}

/// Environment handed to the child process.
#[derive(Clone, Debug, PartialEq)]
pub struct Environment {
    pub keep_env: bool,
    pub additional: Vec<(String, String)>,
}

/// A validated service descriptor: immutable input of the engine.
#[derive(Clone, Debug, PartialEq)]
pub struct Service {
    pub name: String,
    pub command: String,
    pub working_directory: Option<String>,
    pub user: Option<String>,
    pub environment: Environment,
    pub start_after: Vec<String>,
    pub restart: Restart,
    pub healthiness: Healthiness,
    pub termination: Termination,
    pub failure: FailureStrategy,
}

/// The only currency between components: value-typed, cheaply copyable,
/// and carrying no reference to a live process.
#[derive(Clone, Debug, PartialEq, Eq)]
pub enum Event {
    ServiceStarted(String),
    ServiceRunning(String),
    ServiceExited(String, i32),
    HealthCheck(String, Health),
    ForceKill(String),
    SpawnFailed(String),
    ShutdownRequested,
    ShutdownInitiated(String),
    PidChanged(String, i32),
    ProcessExited(i32, i32),
    ShutdownCompleted,
}

/// Every field of `s` besides name, command and `start_after` holds its
/// documented default.
pub open spec fn default_shaped(s: Service) -> bool {
    &&& s.working_directory is None
    &&& s.user is None
    &&& s.environment.keep_env
    &&& s.environment.additional@.len() == 0
    &&& s.restart.strategy is Never
    &&& s.restart.backoff_ms == 0
    &&& s.restart.attempts == 0
    &&& s.healthiness.http_endpoint is None
    &&& s.healthiness.file_path is None
    &&& s.termination.signal@ == "TERM"@
    &&& s.termination.wait_ms == 5000
    &&& s.failure is Ignore
}

impl Service {
    /// A descriptor with the given name and command and every default.
    pub fn with_name_and_command(name: String, command: String) -> (s: Service)
        ensures
            default_shaped(s),
            s.name@ == name@,
            s.command@ == command@,
            s.start_after@.len() == 0,
    {
        Service {
            name,
            command,
            working_directory: None,
            user: None,
            environment: Environment { keep_env: true, additional: Vec::new() },
            start_after: Vec::new(),
            restart: Restart { strategy: RestartStrategy::Never, backoff_ms: 0, attempts: 0 },
            healthiness: Healthiness { http_endpoint: None, file_path: None },
            termination: Termination { signal: String::from_str("TERM"), wait_ms: 5000 },
            failure: FailureStrategy::Ignore,
        }
    }

    /// The descriptor of a bare trailing command: the command doubles as
    /// the name and there is no dependency graph.
    pub fn from_command(command: String) -> (s: Service)
        ensures
            default_shaped(s),
            s.name@ == command@,
            s.command@ == command@,
            s.start_after@.len() == 0,
    {
        let name = command.clone();
        Service::with_name_and_command(name, command)
    }

    /// A descriptor with only a name; the command is empty.
    pub fn from_name(name: String) -> (s: Service)
        ensures
            default_shaped(s),
            s.name@ == name@,
            s.command@.len() == 0,
            s.start_after@.len() == 0,
    {
        Service::with_name_and_command(name, String::new())
    }

    /// A descriptor with a name and the services it must start after.
    pub fn start_after(name: String, start_after: Vec<String>) -> (s: Service)
        ensures
            default_shaped(s),
            s.name@ == name@,
            s.command@.len() == 0,
            s.start_after@ == start_after@,
    {
        let mut s = Service::with_name_and_command(name, String::new());
        s.start_after = start_after;
        s
    }
}

/// A copy of an event, equal to the original; unlike the derived
/// `Clone`, this copy carries a proof of that equality.
pub fn clone_event(e: &Event) -> (r: Event)
    ensures
        r == *e,
{
    match e {
        Event::ServiceStarted(n) => Event::ServiceStarted(n.clone()),
        Event::ServiceRunning(n) => Event::ServiceRunning(n.clone()),
        Event::ServiceExited(n, code) => Event::ServiceExited(n.clone(), *code),
        Event::HealthCheck(n, h) => Event::HealthCheck(n.clone(), *h),
        Event::ForceKill(n) => Event::ForceKill(n.clone()),
        Event::SpawnFailed(n) => Event::SpawnFailed(n.clone()),
        Event::ShutdownRequested => Event::ShutdownRequested,
        Event::ShutdownInitiated(n) => Event::ShutdownInitiated(n.clone()),
        Event::PidChanged(n, pid) => Event::PidChanged(n.clone(), *pid),
        Event::ProcessExited(pid, code) => Event::ProcessExited(*pid, *code),
        Event::ShutdownCompleted => Event::ShutdownCompleted,
    }
}

/// The text of the fully populated sample service file.
pub open spec fn sample_service_text() -> Seq<char> {
    "command = \"/bin/sh -c 'echo hello world'\"\nworking-directory = \"/tmp\"\nuser = \"root\"\nstart-after = [\"database\", \"backend\"]\n\n[environment]\nkeep-env = true\n\n[environment.additional]\nkey = \"value\"\n\n[restart]\nstrategy = \"never\"\nbackoff = \"0s\"\nattempts = 0\n\n[healthiness]\nhttp-endpoint = \"http://localhost:8080/healthcheck\"\nfile-path = \"/var/myservice/up\"\n\n[termination]\nsignal = \"TERM\"\nwait = \"5s\"\n\n[failure]\nstrategy = \"ignore\"\n"@
}

/// A fully populated service file, fit to print as a starting point:
/// exactly the sample text.
pub fn get_sample_service() -> (r: &'static str)
    ensures
        r@ == sample_service_text(),
        r@.len() > 0,
{
    let sample = "command = \"/bin/sh -c 'echo hello world'\"\nworking-directory = \"/tmp\"\nuser = \"root\"\nstart-after = [\"database\", \"backend\"]\n\n[environment]\nkeep-env = true\n\n[environment.additional]\nkey = \"value\"\n\n[restart]\nstrategy = \"never\"\nbackoff = \"0s\"\nattempts = 0\n\n[healthiness]\nhttp-endpoint = \"http://localhost:8080/healthcheck\"\nfile-path = \"/var/myservice/up\"\n\n[termination]\nsignal = \"TERM\"\nwait = \"5s\"\n\n[failure]\nstrategy = \"ignore\"\n";
    proof {
        reveal_strlit(
            "command = \"/bin/sh -c 'echo hello world'\"\nworking-directory = \"/tmp\"\nuser = \"root\"\nstart-after = [\"database\", \"backend\"]\n\n[environment]\nkeep-env = true\n\n[environment.additional]\nkey = \"value\"\n\n[restart]\nstrategy = \"never\"\nbackoff = \"0s\"\nattempts = 0\n\n[healthiness]\nhttp-endpoint = \"http://localhost:8080/healthcheck\"\nfile-path = \"/var/myservice/up\"\n\n[termination]\nsignal = \"TERM\"\nwait = \"5s\"\n\n[failure]\nstrategy = \"ignore\"\n",
        );
    }
    sample
}

} // verus!
