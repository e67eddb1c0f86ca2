use horust::bus::Bus;
use horust::formats::{clone_event, Event, Health, Service};
use horust::get_sample_service;
use horust::healthcheck::{
    classify_file_probe, classify_http_status, classify_no_probe, status_from_digits,
    HealthChecker, Probe,
};
use horust::reaper::{events_for_harvest, Reaper};
use horust::signal_handling::{event_for_signal, signal_number, SIGCHLD, SIGKILL};

#[test]
fn bus_broadcasts_to_every_other_endpoint() {
    let mut bus = Bus::new();
    let alpha = bus.join();
    let beta = bus.join();
    let gamma = bus.join();
    assert_eq!(bus.endpoints(), 3);

    bus.publish(alpha, &Event::ShutdownRequested);
    bus.publish(alpha, &Event::ServiceStarted("x".to_string()));

    // FIFO at every receiver; the publisher receives nothing.
    let expected = vec![
        Event::ShutdownRequested,
        Event::ServiceStarted("x".to_string()),
    ];
    assert_eq!(bus.drain(beta), expected);
    assert_eq!(bus.drain(gamma), expected);
    assert_eq!(bus.drain(alpha), Vec::<Event>::new());

    // Draining empties the inbox.
    assert_eq!(bus.drain(beta), Vec::<Event>::new());
}

#[test]
fn clone_event_copies_every_variant() {
    let samples = vec![
        Event::ServiceStarted("a".to_string()),
        Event::ServiceRunning("a".to_string()),
        Event::ServiceExited("a".to_string(), 3),
        Event::HealthCheck("a".to_string(), Health::Unhealthy),
        Event::ForceKill("a".to_string()),
        Event::SpawnFailed("a".to_string()),
        Event::ShutdownRequested,
        Event::ShutdownInitiated("a".to_string()),
        Event::PidChanged("a".to_string(), 9),
        Event::ProcessExited(9, 1),
        Event::ShutdownCompleted,
    ];
    for e in &samples {
        assert_eq!(clone_event(e), *e);
    }
}

#[test]
fn http_status_classification_is_exactly_2xx() {
    assert_eq!(classify_http_status(200), Health::Healthy);
    assert_eq!(classify_http_status(204), Health::Healthy);
    assert_eq!(classify_http_status(299), Health::Healthy);
    assert_eq!(classify_http_status(199), Health::Unhealthy);
    assert_eq!(classify_http_status(300), Health::Unhealthy);
    assert_eq!(classify_http_status(404), Health::Unhealthy);
    assert_eq!(classify_http_status(500), Health::Unhealthy);
}

#[test]
fn file_and_absent_probes() {
    assert_eq!(classify_file_probe(true), Health::Healthy);
    assert_eq!(classify_file_probe(false), Health::Unhealthy);
    assert_eq!(classify_no_probe(), Health::Healthy);
}

#[test]
fn health_checker_probes_only_live_services() {
    let mut svc = Service::with_name_and_command("web".to_string(), "/bin/web".to_string());
    svc.healthiness.http_endpoint = Some("http://localhost:8080/health".to_string());
    let services = vec![svc];
    let mut hc = HealthChecker::new(&services);
    assert_eq!(hc.table.len(), 1);
    assert_eq!(
        hc.table[0].probe,
        Probe::Http("http://localhost:8080/health".to_string())
    );

    // Not yet started: nothing is due.
    assert_eq!(hc.due(5000), Vec::<usize>::new());

    hc.observe(&Event::ServiceRunning("web".to_string()));
    assert_eq!(hc.due(5000), vec![0]);

    // Recording a probe moves the deadline one interval on.
    let ev = hc.record_probe(0, 5000, Health::Healthy);
    assert_eq!(ev, Event::HealthCheck("web".to_string(), Health::Healthy));
    assert_eq!(hc.due(5999), Vec::<usize>::new());
    assert_eq!(hc.due(6000), vec![0]);

    // The exit closes the row again.
    hc.observe(&Event::ServiceExited("web".to_string(), 0));
    assert_eq!(hc.due(9000), Vec::<usize>::new());
}

#[test]
fn reaper_counter_and_harvest_events() {
    let mut reaper = Reaper::new();
    assert!(!reaper.should_drain());
    reaper.notify_sigchld();
    reaper.notify_sigchld();
    assert!(reaper.should_drain());
    reaper.acknowledge();
    assert!(!reaper.should_drain());

    let harvested = vec![(101, 0), (102, 137)];
    let events = events_for_harvest(&harvested);
    assert_eq!(
        events,
        vec![Event::ProcessExited(101, 0), Event::ProcessExited(102, 137)]
    );
}

#[test]
fn shutdown_signals_become_requests() {
    assert_eq!(event_for_signal(2), Some(Event::ShutdownRequested));
    assert_eq!(event_for_signal(3), Some(Event::ShutdownRequested));
    assert_eq!(event_for_signal(15), Some(Event::ShutdownRequested));
    assert_eq!(event_for_signal(SIGCHLD), None);
    assert_eq!(event_for_signal(1), None);
}

#[test]
fn signal_names_resolve_to_numbers() {
    assert_eq!(signal_number(&"TERM".to_string()), Some(15));
    assert_eq!(signal_number(&"KILL".to_string()), Some(SIGKILL));
    assert_eq!(signal_number(&"HUP".to_string()), Some(1));
    assert_eq!(signal_number(&"USR2".to_string()), Some(12));
    assert_eq!(signal_number(&"BOGUS".to_string()), None);
}

#[test]
fn sample_service_mentions_every_section() {
    let sample = get_sample_service();
    assert!(sample.contains("command"));
    assert!(sample.contains("[restart]"));
    assert!(sample.contains("[healthiness]"));
    assert!(sample.contains("[termination]"));
    assert!(sample.contains("[failure]"));
}

#[test]
fn starting_service_is_probed_before_running() {
    // A service with no declared probe: its row opens as soon as it has
    // started, so the checker can report Healthy and let the runtime
    // promote it to Running.
    let svc = Service::with_name_and_command("job".to_string(), "/bin/job".to_string());
    let services = vec![svc];
    let mut hc = HealthChecker::new(&services);
    assert_eq!(hc.table[0].probe, Probe::NoProbe);
    assert_eq!(hc.due(0), Vec::<usize>::new());

    hc.observe(&Event::ServiceStarted("job".to_string()));
    assert_eq!(hc.due(0), vec![0]);

    let ev = hc.record_probe(0, 0, Health::Healthy);
    assert_eq!(ev, Event::HealthCheck("job".to_string(), Health::Healthy));

    hc.observe(&Event::ServiceExited("job".to_string(), 0));
    assert_eq!(hc.due(5000), Vec::<usize>::new());
}

#[test]
fn status_digits_parse_exactly() {
    assert_eq!(status_from_digits(b'2', b'0', b'0'), Some(200));
    assert_eq!(status_from_digits(b'4', b'0', b'4'), Some(404));
    assert_eq!(status_from_digits(b'9', b'9', b'9'), Some(999));
    assert_eq!(status_from_digits(b' ', b'0', b'0'), None);
    assert_eq!(status_from_digits(b'2', b'x', b'0'), None);
    assert_eq!(status_from_digits(b'2', b'0', b'/'), None);
}
