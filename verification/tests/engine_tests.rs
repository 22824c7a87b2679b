use killport::cli::Mode;
use killport::docker::DockerContainer;
use killport::error::KillportError;
use killport::killport::{
    contains_text, is_shim_name, Action, Event, Killable, KillableType, Killport, KillportOperations, NativeProcess,
};
use killport::signal::KillportSignal;
use killport::unix::UnixProcess;
use killport::windows::WindowsProcess;

fn sigkill() -> KillportSignal {
    KillportSignal::from_str("SIGKILL").unwrap()
}

fn unix(pid: i32, name: &str) -> NativeProcess {
    NativeProcess::Unix(UnixProcess::new(pid, name.to_string()))
}

fn container(name: &str) -> DockerContainer {
    DockerContainer {
        name: name.to_string(),
    }
}

fn reports(found: &[Killable]) -> Vec<(KillableType, String)> {
    found.iter().map(|k| (k.get_type(), k.get_name())).collect()
}

fn process(name: &str) -> (KillableType, String) {
    (KillableType::Process, name.to_string())
}

fn contained(name: &str) -> (KillableType, String) {
    (KillableType::Container, name.to_string())
}

#[test]
fn marker_is_found_anywhere_in_the_text() {
    assert!(contains_text("docker-proxy", "docker"));
    assert!(contains_text("com.docker.backend", "docker"));
    assert!(contains_text("xdocker", "docker"));
    assert!(contains_text("docker", "docker"));
    assert!(contains_text("anything", ""));
    assert!(contains_text("", ""));
    assert!(!contains_text("docke", "docker"));
    assert!(!contains_text("dockedocke", "docker"));
    assert!(!contains_text("", "docker"));
    assert!(contains_text("dodocker", "docker"));
    assert!(contains_text("caf\u{e9} docker", "docker"));
}

#[test]
fn runtime_processes_are_known_by_name_in_any_case() {
    assert!(is_shim_name("docker-proxy"));
    assert!(is_shim_name("Docker Desktop"));
    assert!(is_shim_name("/usr/bin/DOCKERD"));
    assert!(!is_shim_name("nginx"));
    assert!(!is_shim_name("dock er"));
}

#[test]
fn candidates_are_processes_then_containers() {
    let found = Killport::find_target_killables(
        Mode::Auto,
        true,
        vec![unix(1, "nginx"), unix(2, "docker-proxy"), unix(3, "node")],
        vec![container("web"), container("db")],
    );
    assert_eq!(
        reports(&found),
        vec![
            process("nginx"),
            process("node"),
            contained("web"),
            contained("db")
        ]
    );
}

#[test]
fn runtime_processes_stay_when_the_runtime_is_absent() {
    let found = Killport::find_target_killables(
        Mode::Auto,
        false,
        vec![unix(2, "docker-proxy")],
        vec![container("web")],
    );
    assert_eq!(reports(&found), vec![process("docker-proxy")]);
}

#[test]
fn mode_decides_which_classes_are_candidates() {
    let processes = || vec![unix(1, "nginx")];
    let containers = || vec![container("web")];
    assert_eq!(
        reports(&Killport::find_target_killables(
            Mode::Process,
            true,
            processes(),
            containers()
        )),
        vec![process("nginx")]
    );
    assert_eq!(
        reports(&Killport::find_target_killables(
            Mode::Container,
            true,
            processes(),
            containers()
        )),
        vec![contained("web")]
    );
    assert!(
        Killport::find_target_killables(Mode::Container, true, processes(), vec![]).is_empty()
    );
    assert!(
        Killport::find_target_killables(Mode::Container, false, processes(), containers())
            .is_empty()
    );
}

#[test]
fn windows_candidate_is_shown_by_its_own_name() {
    let found = Killport::find_target_killables(
        Mode::Process,
        false,
        vec![NativeProcess::Windows(WindowsProcess::new(
            300,
            "svc.exe".to_string(),
        ))],
        vec![],
    );
    assert_eq!(reports(&found), vec![process("svc.exe")]);
}

#[test]
fn auto_pass_probes_then_resolves_processes_then_containers() {
    let (engine, action) = Killport::kill_service_by_port(8080, sigkill(), Mode::Auto, false);
    assert_eq!(action, Action::ProbeRuntime);
    assert!(engine.target().is_none());
    let (engine, action) = engine.advance(Event::RuntimeProbed(true));
    assert_eq!(action, Action::ResolveProcesses);
    let (engine, action) = engine.advance(Event::ProcessesResolved(vec![
        unix(1, "nginx"),
        unix(2, "Docker-Proxy"),
    ]));
    assert_eq!(action, Action::ResolveContainers);
    let (engine, action) = engine.advance(Event::ContainersResolved(vec![container("web")]));
    assert_eq!(action, Action::Terminate);
    assert_eq!(engine.target().unwrap().get_name(), "nginx");
    let (engine, action) = engine.advance(Event::Terminated(true));
    assert_eq!(action, Action::Terminate);
    assert_eq!(engine.target().unwrap().get_name(), "web");
    assert_eq!(engine.target().unwrap().get_type(), KillableType::Container);
    let (engine, action) = engine.advance(Event::Terminated(true));
    assert_eq!(action, Action::Finish);
    assert!(engine.target().is_none());
    assert_eq!(
        engine.finish().unwrap(),
        vec![process("nginx"), contained("web")]
    );
}

#[test]
fn absent_runtime_narrows_the_pass_to_processes() {
    let (engine, _) = Killport::kill_service_by_port(8080, sigkill(), Mode::Auto, false);
    let (engine, action) = engine.advance(Event::RuntimeProbed(false));
    assert_eq!(action, Action::ResolveProcesses);
    let (engine, action) = engine.advance(Event::ProcessesResolved(vec![unix(2, "dockerd")]));
    // No containers are asked for, and the runtime's process stays.
    assert_eq!(action, Action::Terminate);
    let (engine, action) = engine.advance(Event::Terminated(true));
    assert_eq!(action, Action::Finish);
    assert_eq!(engine.finish().unwrap(), vec![process("dockerd")]);
}

#[test]
fn process_mode_never_probes_the_runtime() {
    let (engine, action) = Killport::kill_service_by_port(8080, sigkill(), Mode::Process, false);
    assert_eq!(action, Action::ResolveProcesses);
    let (engine, action) =
        engine.advance(Event::ProcessesResolved(vec![unix(2, "docker-proxy")]));
    assert_eq!(action, Action::Terminate);
    assert_eq!(engine.target().unwrap().get_name(), "docker-proxy");
}

#[test]
fn container_mode_never_resolves_processes() {
    let (engine, action) =
        Killport::kill_service_by_port(8080, sigkill(), Mode::Container, false);
    assert_eq!(action, Action::ProbeRuntime);
    let (engine, action) = engine.advance(Event::RuntimeProbed(true));
    assert_eq!(action, Action::ResolveContainers);
    let (engine, action) = engine.advance(Event::ContainersResolved(vec![]));
    assert_eq!(action, Action::Finish);
    assert_eq!(engine.finish().unwrap(), vec![]);

    let (engine, _) = Killport::kill_service_by_port(8080, sigkill(), Mode::Container, false);
    let (engine, action) = engine.advance(Event::RuntimeProbed(false));
    assert_eq!(action, Action::Finish);
    assert_eq!(engine.finish().unwrap(), vec![]);
}

#[test]
fn free_port_reports_nothing_and_does_not_fail() {
    for mode in [Mode::Auto, Mode::Process] {
        for dry_run in [false, true] {
            let (mut engine, mut action) =
                Killport::kill_service_by_port(8080, sigkill(), mode, dry_run);
            if action == Action::ProbeRuntime {
                (engine, action) = engine.advance(Event::RuntimeProbed(true));
            }
            assert_eq!(action, Action::ResolveProcesses);
            (engine, action) = engine.advance(Event::ProcessesResolved(vec![]));
            if action == Action::ResolveContainers {
                (engine, action) = engine.advance(Event::ContainersResolved(vec![]));
            }
            assert_eq!(action, Action::Finish);
            assert_eq!(engine.finish().unwrap(), vec![]);
        }
    }
}

#[test]
fn dry_run_reports_every_candidate_and_asks_for_no_termination() {
    let run = || {
        let (engine, _) = Killport::kill_service_by_port(8080, sigkill(), Mode::Auto, true);
        let (engine, _) = engine.advance(Event::RuntimeProbed(true));
        let (engine, action) = engine.advance(Event::ProcessesResolved(vec![
            unix(1, "nginx"),
            unix(3, "node"),
        ]));
        assert_eq!(action, Action::ResolveContainers);
        let (engine, action) = engine.advance(Event::ContainersResolved(vec![container("web")]));
        assert_eq!(action, Action::Finish);
        assert!(engine.target().is_none());
        engine.finish().unwrap()
    };
    let first = run();
    assert_eq!(
        first,
        vec![process("nginx"), process("node"), contained("web")]
    );
    assert_eq!(run(), first);
}

#[test]
fn dry_run_ignores_a_termination_it_did_not_ask_for() {
    let (engine, _) = Killport::kill_service_by_port(8080, sigkill(), Mode::Process, true);
    let (engine, action) = engine.advance(Event::ProcessesResolved(vec![unix(1, "nginx")]));
    assert_eq!(action, Action::Finish);
    let (engine, action) = engine.advance(Event::Terminated(true));
    assert_eq!(action, Action::Finish);
    assert_eq!(engine.finish().unwrap(), vec![process("nginx")]);
}

#[test]
fn candidate_that_was_not_terminated_is_not_reported() {
    let (engine, _) = Killport::kill_service_by_port(8080, sigkill(), Mode::Process, false);
    let (engine, _) = engine.advance(Event::ProcessesResolved(vec![
        unix(1, "nginx"),
        unix(3, "node"),
    ]));
    let (engine, action) = engine.advance(Event::Terminated(false));
    assert_eq!(action, Action::Terminate);
    assert_eq!(engine.target().unwrap().get_name(), "node");
    let (engine, action) = engine.advance(Event::Terminated(true));
    assert_eq!(action, Action::Finish);
    assert_eq!(engine.finish().unwrap(), vec![process("node")]);
}

#[test]
fn first_failed_termination_ends_the_pass() {
    let (engine, _) = Killport::kill_service_by_port(8080, sigkill(), Mode::Process, false);
    let (engine, _) = engine.advance(Event::ProcessesResolved(vec![
        unix(1, "nginx"),
        unix(3, "node"),
        unix(4, "late"),
    ]));
    let (engine, action) = engine.advance(Event::Terminated(true));
    assert_eq!(action, Action::Terminate);
    let (engine, action) =
        engine.advance(Event::TerminationFailed("Failed to kill 'node': EPERM".to_string()));
    assert_eq!(action, Action::Finish);
    assert!(engine.target().is_none());
    // Nothing changes a pass that is over.
    let (engine, action) = engine.advance(Event::Terminated(true));
    assert_eq!(action, Action::Finish);
    match engine.finish() {
        Err(KillportError::Termination(reason)) => {
            assert_eq!(reason, "Failed to kill 'node': EPERM")
        }
        other => panic!("the pass did not fail: {other:?}"),
    }
}

#[test]
fn failed_resolution_ends_the_pass() {
    let (engine, _) = Killport::kill_service_by_port(8080, sigkill(), Mode::Auto, false);
    let (engine, _) = engine.advance(Event::RuntimeProbed(true));
    let (engine, action) =
        engine.advance(Event::ResolutionFailed("permission denied".to_string()));
    assert_eq!(action, Action::Finish);
    match engine.finish() {
        Err(KillportError::Resolution(reason)) => assert_eq!(reason, "permission denied"),
        other => panic!("the pass did not fail: {other:?}"),
    }

    let (engine, _) = Killport::kill_service_by_port(8080, sigkill(), Mode::Container, false);
    let (engine, _) = engine.advance(Event::RuntimeProbed(true));
    let (engine, action) = engine.advance(Event::ResolutionFailed("socket closed".to_string()));
    assert_eq!(action, Action::Finish);
    assert!(matches!(
        engine.finish(),
        Err(KillportError::Resolution(_))
    ));
}

#[test]
fn event_that_was_not_asked_for_ends_the_pass() {
    let (engine, _) = Killport::kill_service_by_port(8080, sigkill(), Mode::Auto, false);
    let (engine, action) = engine.advance(Event::ProcessesResolved(vec![unix(1, "nginx")]));
    assert_eq!(action, Action::Finish);
    assert!(matches!(
        engine.finish(),
        Err(KillportError::UnexpectedEvent)
    ));

    let (engine, _) = Killport::kill_service_by_port(8080, sigkill(), Mode::Process, false);
    let (engine, action) = engine.advance(Event::Terminated(true));
    assert_eq!(action, Action::Finish);
    assert!(matches!(
        engine.finish(),
        Err(KillportError::UnexpectedEvent)
    ));

    let (engine, _) = Killport::kill_service_by_port(8080, sigkill(), Mode::Process, false);
    let (engine, _) = engine.advance(Event::ProcessesResolved(vec![unix(1, "nginx")]));
    let (engine, action) = engine.advance(Event::RuntimeProbed(true));
    assert_eq!(action, Action::Finish);
    assert!(matches!(
        engine.finish(),
        Err(KillportError::UnexpectedEvent)
    ));
}

#[test]
fn pass_that_is_cut_short_fails() {
    let (engine, _) = Killport::kill_service_by_port(8080, sigkill(), Mode::Auto, false);
    assert!(matches!(
        engine.finish(),
        Err(KillportError::UnexpectedEvent)
    ));
}
