use killport::cli::{
    describe_acted_on, describe_nothing_found, parse_signal, port_numeral, service_descriptors,
    Mode,
};
use killport::error::{describe_refusal, KillportError};
use killport::killport::KillableType;
use killport::signal::KillportSignal;

#[test]
fn service_descriptors_name_each_mode() {
    assert_eq!(service_descriptors(Mode::Auto), ("service", "services"));
    assert_eq!(service_descriptors(Mode::Process), ("process", "processes"));
    assert_eq!(
        service_descriptors(Mode::Container),
        ("container", "containers")
    );
}

#[test]
fn mode_is_shown_by_its_word() {
    assert_eq!(Mode::Auto.to_string(), "auto");
    assert_eq!(Mode::Process.to_string(), "process");
    assert_eq!(Mode::Container.to_string(), "container");
}

#[test]
fn class_is_shown_by_its_word() {
    assert_eq!(KillableType::Process.to_string(), "process");
    assert_eq!(KillableType::Container.to_string(), "container");
}

#[test]
fn signal_is_parsed_from_its_name_and_shown_as_that_name() {
    for name in ["SIGKILL", "SIGTERM", "SIGHUP", "SIGINT", "SIGUSR1"] {
        let signal = KillportSignal::from_str(name).unwrap();
        assert_eq!(signal.to_string(), name);
        assert_eq!(signal.0, name);
        assert_eq!(signal.duplicate().to_string(), name);
    }
}

#[test]
fn signal_names_are_matched_as_they_stand() {
    for name in ["sigkill", "KILL", "SIGNOPE", "", "SIGKILL "] {
        match KillportSignal::from_str(name) {
            Err(KillportError::InvalidSignal(rejected)) => assert_eq!(rejected, name),
            other => panic!("{name:?} was not rejected: {other:?}"),
        }
    }
}

#[test]
fn signal_lookup_decides_acceptance() {
    assert_eq!(
        KillportSignal::from_lookup("SIGKILL", true)
            .unwrap()
            .to_string(),
        "SIGKILL"
    );
    assert!(matches!(
        KillportSignal::from_lookup("SIGKILL", false),
        Err(KillportError::InvalidSignal(_))
    ));
}

#[test]
fn caller_may_write_the_signal_in_any_case() {
    assert_eq!(parse_signal("sigkill").unwrap().to_string(), "SIGKILL");
    assert_eq!(parse_signal("SigTerm").unwrap().to_string(), "SIGTERM");
    assert_eq!(parse_signal("SIGINT").unwrap().to_string(), "SIGINT");
    match parse_signal("bogus") {
        Err(KillportError::InvalidSignal(rejected)) => assert_eq!(rejected, "BOGUS"),
        other => panic!("not rejected: {other:?}"),
    }
}

#[test]
fn port_is_written_in_decimal() {
    assert_eq!(port_numeral(0), "0");
    assert_eq!(port_numeral(7), "7");
    assert_eq!(port_numeral(10), "10");
    assert_eq!(port_numeral(8080), "8080");
    assert_eq!(port_numeral(12345), "12345");
    assert_eq!(port_numeral(65535), "65535");
    for port in [1u16, 99, 100, 4096, 60000] {
        assert_eq!(port_numeral(port), port.to_string());
    }
}

#[test]
fn nothing_found_line_names_what_the_mode_targets() {
    assert_eq!(
        describe_nothing_found(Mode::Auto, 8080),
        "No service found using port 8080"
    );
    assert_eq!(
        describe_nothing_found(Mode::Process, 8383),
        "No process found using port 8383"
    );
    assert_eq!(
        describe_nothing_found(Mode::Container, 1),
        "No container found using port 1"
    );
}

#[test]
fn acted_on_line_names_action_class_name_and_port() {
    assert_eq!(
        describe_acted_on(false, KillableType::Process, "svc", 8080),
        "Successfully killed process 'svc' listening on port 8080"
    );
    assert_eq!(
        describe_acted_on(true, KillableType::Container, "web", 443),
        "Would kill container 'web' listening on port 443"
    );
}

#[test]
fn refusal_names_candidate_and_reason() {
    assert_eq!(
        describe_refusal("svc", "EPERM"),
        "Failed to kill 'svc': EPERM"
    );
}
