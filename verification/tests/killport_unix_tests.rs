use killport::cli::Mode;
use killport::docker::DockerContainer;
use killport::killport::{Action, Event, Killable, KillableType, Killport, KillportOperations, NativeProcess};
use killport::signal::KillportSignal;
use killport::unix::{SignalOutcome, UnixProcess};

fn sigkill() -> KillportSignal {
    KillportSignal::from_str("SIGKILL").unwrap()
}

#[test]
fn native_process_kill_succeeds() {
    let process = UnixProcess::new(1234, "mock_process".to_string());
    let event = process.kill(SignalOutcome::Delivered);
    assert!(matches!(event, Event::Terminated(true)));

    let (engine, action) = Killport::kill_service_by_port(8080, sigkill(), Mode::Process, false);
    assert_eq!(action, Action::ResolveProcesses);
    let (engine, action) =
        engine.advance(Event::ProcessesResolved(vec![NativeProcess::Unix(process)]));
    assert_eq!(action, Action::Terminate);
    assert_eq!(engine.signal().to_string(), "SIGKILL");
    let (engine, action) = engine.advance(event);
    assert_eq!(action, Action::Finish);
    assert_eq!(
        engine.finish().unwrap(),
        vec![(KillableType::Process, "mock_process".to_string())]
    );
}

#[test]
fn docker_container_kill_succeeds() {
    let container = DockerContainer {
        name: "mock_container".to_string(),
    };
    let event = container.kill(Ok(()));
    assert!(matches!(event, Event::Terminated(true)));

    let (engine, action) = Killport::kill_service_by_port(8080, sigkill(), Mode::Container, false);
    assert_eq!(action, Action::ProbeRuntime);
    let (engine, action) = engine.advance(Event::RuntimeProbed(true));
    assert_eq!(action, Action::ResolveContainers);
    let (engine, action) = engine.advance(Event::ContainersResolved(vec![container]));
    assert_eq!(action, Action::Terminate);
    let (engine, action) = engine.advance(event);
    assert_eq!(action, Action::Finish);
    assert_eq!(
        engine.finish().unwrap(),
        vec![(KillableType::Container, "mock_container".to_string())]
    );
}

#[test]
fn find_killables_processes_only() {
    let port = 8080;
    let mode = Mode::Process;
    let mock_process = UnixProcess::new(4321, "mock_process".to_string());
    let found_killables = Killport::find_target_killables(
        mode,
        false,
        vec![NativeProcess::Unix(mock_process)],
        vec![DockerContainer {
            name: "ignored".to_string(),
        }],
    );
    assert_eq!(found_killables.len(), 1);
    assert!(found_killables
        .iter()
        .all(|k| k.get_type() == KillableType::Process));

    let (engine, action) = Killport::kill_service_by_port(port, sigkill(), mode, false);
    assert_eq!(engine.port(), 8080);
    assert_eq!(action, Action::ResolveProcesses);
    let (engine, _) = engine.advance(Event::ProcessesResolved(vec![NativeProcess::Unix(
        UnixProcess::new(4321, "mock_process".to_string()),
    )]));
    let target = engine.target().unwrap();
    assert_eq!(target.get_type(), KillableType::Process);
    assert!(matches!(target, Killable::Process(_)));
}

#[test]
fn kill_service_by_port_dry_run() {
    let port = 8080;
    let mode = Mode::Process;
    let dry_run = true;
    let signal = sigkill();

    let (engine, action) = Killport::kill_service_by_port(port, signal, mode, dry_run);
    assert_eq!(action, Action::ResolveProcesses);
    let (engine, action) = engine.advance(Event::ProcessesResolved(vec![NativeProcess::Unix(
        UnixProcess::new(77, "mock_process".to_string()),
    )]));
    // Nothing is ever asked to be terminated.
    assert_eq!(action, Action::Finish);
    assert!(engine.target().is_none());

    let results = engine.finish().unwrap();
    assert_eq!(results.len(), 1);
    assert_eq!(results[0].0, KillableType::Process);
    assert_eq!(results[0].1, "mock_process");
}

#[test]
fn check_process_type_and_name() {
    let process = UnixProcess::new(1234, "unique_process".to_string());

    assert_eq!(process.get_type(), KillableType::Process);
    assert_eq!(process.get_name(), "unique_process");
    assert_eq!(process.pid(), 1234);
}

#[test]
fn check_docker_container_type_and_name() {
    let container = DockerContainer {
        name: "docker_container".to_string(),
    };

    assert_eq!(container.get_type(), KillableType::Container);
    assert_eq!(container.get_name(), "docker_container");
}

#[test]
fn gone_process_counts_as_terminated() {
    let process = UnixProcess::new(1, "gone".to_string());
    assert!(matches!(
        process.kill(SignalOutcome::NoSuchProcess),
        Event::Terminated(true)
    ));
}

#[test]
fn refused_signal_is_a_failure_with_the_name() {
    let process = UnixProcess::new(1, "init".to_string());
    match process.kill(SignalOutcome::Refused("EPERM: Operation not permitted".to_string())) {
        Event::TerminationFailed(text) => {
            assert_eq!(text, "Failed to kill 'init': EPERM: Operation not permitted")
        }
        other => panic!("unexpected event {:?}", other),
    }
}

#[test]
fn refused_container_kill_is_a_failure_with_the_name() {
    let container = DockerContainer {
        name: "web".to_string(),
    };
    match container.kill(Err("no such container".to_string())) {
        Event::TerminationFailed(text) => {
            assert_eq!(text, "Failed to kill 'web': no such container")
        }
        other => panic!("unexpected event {:?}", other),
    }
}
