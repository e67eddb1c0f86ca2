use horust::formats::{Event, Health, RestartStrategy, Service, ServiceStatus};
use horust::runtime::Runtime;
use horust::validate::validate;

fn plain(name: &str, command: &str) -> Service {
    Service::with_name_and_command(name.to_string(), command.to_string())
}

fn new_runtime(services: Vec<Service>) -> Runtime {
    let services = validate(services).expect("configuration should be valid");
    Runtime::new(services)
}

#[test]
fn simple_success_lifecycle() {
    let mut rt = new_runtime(vec![plain("a", "/bin/true")]);
    let runnable = rt.runnable(0);
    assert_eq!(runnable, vec![0]);

    let (events, cmds) = rt.report_spawn(0, Some(100), 0);
    assert_eq!(
        events,
        vec![
            Event::ServiceStarted("a".to_string()),
            Event::PidChanged("a".to_string(), 100)
        ]
    );
    assert!(cmds.is_empty());

    // No declared probe: the checker reports healthy, the service runs.
    let (events, _) = rt.handle_health(&"a".to_string(), Health::Healthy, 0);
    assert_eq!(events, vec![Event::ServiceRunning("a".to_string())]);

    // Clean exit of the known pid: Success, and the engine completes.
    let (events, cmds) = rt.handle_process_exited(100, 0, 10);
    assert_eq!(
        events,
        vec![
            Event::ServiceExited("a".to_string(), 0),
            Event::ShutdownCompleted
        ]
    );
    assert!(cmds.is_empty());
    assert!(rt.all_terminal());
    assert_eq!(rt.entries[0].status, ServiceStatus::Success);
    assert_eq!(rt.entries[0].pid, None);
}

#[test]
fn dependency_ordering() {
    let a = plain("a", "/bin/sleep 0.2");
    let b = Service {
        start_after: vec!["a".to_string()],
        ..plain("b", "/bin/true")
    };
    let mut rt = new_runtime(vec![a, b]);

    // Only `a` may start: `b` waits for `a` to be Running.
    assert_eq!(rt.runnable(0), vec![0]);
    rt.report_spawn(0, Some(41), 0);
    assert_eq!(rt.runnable(0), Vec::<usize>::new());

    // `a` becomes Running: now, and only now, `b` is eligible.
    rt.handle_health(&"a".to_string(), Health::Healthy, 0);
    assert_eq!(rt.runnable(0), vec![1]);
    let (events, _) = rt.report_spawn(1, Some(42), 0);
    assert_eq!(events[0], Event::ServiceStarted("b".to_string()));
}

#[test]
fn restart_on_failure_three_attempts() {
    let mut c = plain("c", "/bin/false");
    c.restart.strategy = RestartStrategy::OnFailure;
    c.restart.attempts = 2;
    c.restart.backoff_ms = 50;
    let mut rt = new_runtime(vec![c]);

    // First attempt fails: two retries are budgeted.
    rt.report_spawn(0, Some(7), 0);
    let (events, _) = rt.handle_process_exited(7, 1, 100);
    assert_eq!(events, vec![Event::ServiceExited("c".to_string(), 1)]);
    assert_eq!(rt.entries[0].status, ServiceStatus::Initial);
    assert_eq!(rt.entries[0].attempts_used, 1);

    // Backoff holds the restart until 150 ms.
    assert_eq!(rt.runnable(100), Vec::<usize>::new());
    assert_eq!(rt.runnable(149), Vec::<usize>::new());
    assert_eq!(rt.runnable(150), vec![0]);

    rt.report_spawn(0, Some(8), 150);
    rt.handle_process_exited(8, 1, 200);
    assert_eq!(rt.entries[0].attempts_used, 2);

    // Third start; its failure exhausts the budget: Failed, complete.
    assert_eq!(rt.runnable(250), vec![0]);
    rt.report_spawn(0, Some(9), 250);
    let (events, _) = rt.handle_process_exited(9, 1, 300);
    assert_eq!(
        events,
        vec![
            Event::ServiceExited("c".to_string(), 1),
            Event::ShutdownCompleted
        ]
    );
    assert_eq!(rt.entries[0].status, ServiceStatus::Failed);
}

#[test]
fn graceful_shutdown_sends_term_then_finishes() {
    let mut d = plain("d", "/bin/sleep 60");
    d.termination.wait_ms = 100;
    let mut rt = new_runtime(vec![d]);
    rt.report_spawn(0, Some(50), 0);
    rt.handle_health(&"d".to_string(), Health::Healthy, 0);

    let (events, cmds) = rt.handle_shutdown_request(1000);
    assert_eq!(events, vec![Event::ShutdownInitiated("d".to_string())]);
    assert_eq!(cmds.len(), 1);
    assert_eq!(cmds[0].pid, 50);
    assert_eq!(cmds[0].signal, 15);
    assert_eq!(rt.entries[0].status, ServiceStatus::InKilling);

    // No new start is ever scheduled after the request.
    assert_eq!(rt.runnable(2000), Vec::<usize>::new());

    let (events, _) = rt.handle_process_exited(50, 0, 1050);
    assert_eq!(
        events,
        vec![
            Event::ServiceExited("d".to_string(), 0),
            Event::ShutdownCompleted
        ]
    );
    assert_eq!(rt.entries[0].status, ServiceStatus::Finished);
    assert_eq!(rt.entries[0].pid, None);
}

#[test]
fn force_kill_after_grace_period() {
    let mut e = plain("e", "/bin/ignore-term");
    e.termination.wait_ms = 50;
    let mut rt = new_runtime(vec![e]);
    rt.report_spawn(0, Some(60), 0);
    rt.handle_health(&"e".to_string(), Health::Healthy, 0);
    rt.handle_shutdown_request(1000);

    // Before the deadline nothing is forced.
    let (events, cmds) = rt.due_force_kills(1049);
    assert!(events.is_empty());
    assert!(cmds.is_empty());

    // At the deadline SIGKILL goes out; the exit then closes the entry.
    let (events, cmds) = rt.due_force_kills(1050);
    assert_eq!(events, vec![Event::ForceKill("e".to_string())]);
    assert_eq!(cmds.len(), 1);
    assert_eq!(cmds[0].pid, 60);
    assert_eq!(cmds[0].signal, 9);
    let (_, _) = rt.handle_process_exited(60, 137, 1060);
    assert_eq!(rt.entries[0].status, ServiceStatus::Finished);
}

#[test]
fn unhealthy_running_service_is_killed() {
    let mut f = plain("f", "/bin/server");
    f.healthiness.file_path = Some("/run/f/up".to_string());
    f.termination.wait_ms = 200;
    let mut rt = new_runtime(vec![f]);
    rt.report_spawn(0, Some(70), 0);
    rt.handle_health(&"f".to_string(), Health::Healthy, 0);
    assert_eq!(rt.entries[0].status, ServiceStatus::Running);

    let (events, cmds) = rt.handle_health(&"f".to_string(), Health::Unhealthy, 500);
    assert_eq!(events, vec![Event::ShutdownInitiated("f".to_string())]);
    assert_eq!(cmds.len(), 1);
    assert_eq!(cmds[0].pid, 70);
    assert_eq!(cmds[0].signal, 15);
    assert_eq!(rt.entries[0].status, ServiceStatus::InKilling);
    assert_eq!(rt.entries[0].kill_deadline_ms, 700);
}

#[test]
fn kill_all_failure_strategy_takes_everything_down() {
    let g = plain("g", "/bin/server");
    let mut h = plain("h", "/bin/flaky");
    h.failure = horust::formats::FailureStrategy::KillAll;
    let mut rt = new_runtime(vec![g, h]);
    rt.report_spawn(0, Some(80), 0);
    rt.handle_health(&"g".to_string(), Health::Healthy, 0);
    rt.report_spawn(1, Some(81), 0);
    rt.handle_health(&"h".to_string(), Health::Healthy, 0);

    // `h` fails; its strategy forces SIGKILL onto the survivors.
    let (events, cmds) = rt.handle_process_exited(81, 3, 100);
    assert_eq!(events[0], Event::ServiceExited("h".to_string(), 3));
    assert!(events.contains(&Event::ShutdownInitiated("g".to_string())));
    assert_eq!(cmds.len(), 1);
    assert_eq!(cmds[0].pid, 80);
    assert_eq!(cmds[0].signal, 9);
    assert_eq!(rt.entries[0].status, ServiceStatus::InKilling);
    assert_eq!(rt.entries[1].status, ServiceStatus::Failed);
}

#[test]
fn stray_pid_is_ignored() {
    let mut rt = new_runtime(vec![plain("a", "/bin/true")]);
    rt.report_spawn(0, Some(90), 0);
    let (events, cmds) = rt.handle_process_exited(4242, 0, 10);
    assert!(events.is_empty());
    assert!(cmds.is_empty());
    assert_eq!(rt.entries[0].status, ServiceStatus::Starting);
}

#[test]
fn spawn_failure_enters_failed() {
    let mut rt = new_runtime(vec![plain("a", "/no/such/binary")]);
    let (events, cmds) = rt.report_spawn(0, None, 0);
    assert_eq!(
        events,
        vec![
            Event::SpawnFailed("a".to_string()),
            Event::ShutdownCompleted
        ]
    );
    assert!(cmds.is_empty());
    assert_eq!(rt.entries[0].status, ServiceStatus::Failed);
}

#[test]
fn spawn_failure_retries_when_policy_allows() {
    let mut a = plain("a", "/no/such/binary");
    a.restart.strategy = RestartStrategy::OnFailure;
    a.restart.attempts = 1;
    a.restart.backoff_ms = 10;
    let mut rt = new_runtime(vec![a]);
    let (events, _) = rt.report_spawn(0, None, 0);
    assert_eq!(events, vec![Event::SpawnFailed("a".to_string())]);
    assert_eq!(rt.entries[0].status, ServiceStatus::Initial);
    assert_eq!(rt.entries[0].attempts_used, 1);
    assert_eq!(rt.runnable(5), Vec::<usize>::new());
    assert_eq!(rt.runnable(10), vec![0]);
}

#[test]
fn unlimited_attempts_impose_no_bound() {
    let mut a = plain("a", "/bin/false");
    a.restart.strategy = RestartStrategy::Always;
    a.restart.attempts = 0;
    let mut rt = new_runtime(vec![a]);
    for round in 0..5 {
        let now = (round as u64) * 10;
        assert_eq!(rt.runnable(now), vec![0]);
        rt.report_spawn(0, Some(100 + round), now);
        rt.handle_process_exited(100 + round, 1, now);
        assert_eq!(rt.entries[0].status, ServiceStatus::Initial);
    }
    assert_eq!(rt.entries[0].attempts_used, 5);
}

#[test]
fn live_pids_match_active_statuses() {
    let a = plain("a", "/bin/one");
    let b = plain("b", "/bin/two");
    let mut rt = new_runtime(vec![a, b]);
    let live = |rt: &Runtime| {
        let pids = rt.entries.iter().filter(|e| e.pid.is_some()).count();
        let active = rt
            .entries
            .iter()
            .filter(|e| {
                matches!(
                    e.status,
                    ServiceStatus::Starting | ServiceStatus::Running | ServiceStatus::InKilling
                )
            })
            .count();
        assert_eq!(pids, active);
        pids
    };
    assert_eq!(live(&rt), 0);
    rt.report_spawn(0, Some(11), 0);
    assert_eq!(live(&rt), 1);
    rt.report_spawn(1, Some(12), 0);
    assert_eq!(live(&rt), 2);
    rt.handle_health(&"a".to_string(), Health::Healthy, 0);
    assert_eq!(live(&rt), 2);
    rt.handle_process_exited(11, 0, 10);
    assert_eq!(live(&rt), 1);
    rt.handle_process_exited(12, 0, 10);
    assert_eq!(live(&rt), 0);
}

#[test]
fn no_restart_after_shutdown_request() {
    let mut a = plain("a", "/bin/flaky");
    a.restart.strategy = RestartStrategy::Always;
    let mut rt = new_runtime(vec![a]);
    rt.report_spawn(0, Some(21), 0);
    rt.handle_health(&"a".to_string(), Health::Healthy, 0);
    rt.handle_shutdown_request(100);

    // Without the pending shutdown this exit would schedule a restart;
    // with it the service settles and the engine completes instead.
    let (events, _) = rt.handle_process_exited(21, 1, 150);
    assert_eq!(rt.entries[0].status, ServiceStatus::Finished);
    assert!(events.contains(&Event::ShutdownCompleted));
    assert!(!events
        .iter()
        .any(|e| matches!(e, Event::ServiceStarted(_))));
    assert_eq!(rt.runnable(1000), Vec::<usize>::new());
}

#[test]
fn empty_set_still_completes() {
    // Every entry of an empty set is terminal from the start; the
    // completion step publishes the sentinel exactly once.
    let mut rt = new_runtime(Vec::new());
    assert!(rt.all_terminal());
    assert_eq!(rt.maybe_complete(), vec![Event::ShutdownCompleted]);
    assert_eq!(rt.maybe_complete(), Vec::<Event>::new());
}
