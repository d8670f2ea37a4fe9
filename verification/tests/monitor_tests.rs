use the_mule::client::{log_entry, Command};
use the_mule::config::{LogLevel, PeerConfig, PeerName, PeerSource};
use the_mule::orchestrator::{
    bootstrap_failure, bootstrap_wait_is_over, not_started_text, not_stopped_text,
    peers_have_status, send_bootstrap_commands,
    shutdown_all_peers, shutdown_command, wait_for_peers_started, wait_for_peers_stopped,
    BootstrapStep, WaitStep,
};
use the_mule::peer_monitor::{
    parse_level, process_log, process_status, status_channel_of, MonitorAction, MonitorEvent,
    PeerEvent, PeerMonitor, PeerState,
};
use the_mule::reference_peer::started_status;

const SECOND: u128 = 1_000_000_000;

#[test]
fn peer_state_new_is_empty() {
    let state = PeerState::new();
    assert!(state.statuses.is_empty());
    assert!(state.peer_info.is_empty());
    assert!(state.logs.is_empty());
}

#[test]
fn peer_state_insert_and_retrieve() {
    let mut state = PeerState::new();
    state.statuses.insert("alice".to_string(), "started".to_string());
    assert_eq!(state.statuses.get("alice").unwrap(), "started");
    state
        .peer_info
        .insert("alice".to_string(), ("vlad123".to_string(), "/ip4/1.2.3.4".to_string()));
    let (vlad, addr) = state.peer_info.get("alice").unwrap();
    assert_eq!(vlad, "vlad123");
    assert_eq!(addr, "/ip4/1.2.3.4");
}

#[test]
fn peer_event_clone() {
    let event =
        PeerEvent::StatusChange { peer: "bob".to_string(), status: "connected".to_string() };
    let cloned = event.clone();
    if let PeerEvent::StatusChange { peer, status } = cloned {
        assert_eq!(peer, "bob");
        assert_eq!(status, "connected");
    } else {
        panic!("expected StatusChange");
    }
}

#[test]
fn wait_for_peers_started_immediate_success() {
    let mut state = PeerState::new();
    let alice = PeerName::new("alice");
    let bob = PeerName::new("bob");
    state.statuses.insert("alice".to_string(), "started".to_string());
    state.statuses.insert("bob".to_string(), "started".to_string());
    let names = vec![alice, bob];
    let result = wait_for_peers_started(&state, &names, 0, SECOND);
    assert!(matches!(result, WaitStep::Done));
}

#[test]
fn wait_for_peers_started_timeout_with_missing() {
    let mut state = PeerState::new();
    let alice = PeerName::new("alice");
    let bob = PeerName::new("bob");
    state.statuses.insert("alice".to_string(), "started".to_string());
    let names = vec![alice, bob];
    let timeout = SECOND / 10;
    assert!(matches!(wait_for_peers_started(&state, &names, 0, timeout), WaitStep::Sleep));
    match wait_for_peers_started(&state, &names, timeout, timeout) {
        WaitStep::TimedOut(err) => {
            assert!(err.contains("bob"));
            assert_eq!(
                err,
                "timeout waiting for peers to start. Missing: [\"bob (status=unknown)\"]"
            );
        }
        _ => panic!("expected a timeout"),
    }
}

#[test]
fn missing_peers_are_shown_with_their_status() {
    let mut state = PeerState::new();
    state.statuses.insert("a".to_string(), "connecting".to_string());
    let names = vec![PeerName::new("a"), PeerName::new("b")];
    match wait_for_peers_started(&state, &names, 5, 5) {
        WaitStep::TimedOut(err) => assert_eq!(
            err,
            "timeout waiting for peers to start. Missing: [\"a (status=connecting)\", \"b (status=unknown)\"]"
        ),
        _ => panic!("expected a timeout"),
    }
}

#[test]
fn waiting_for_peers_to_stop() {
    let mut state = PeerState::new();
    let names = vec![PeerName::new("a"), PeerName::new("b")];
    state.statuses.insert("a".to_string(), "stopped".to_string());
    assert!(matches!(wait_for_peers_stopped(&state, &names, 4, 5), WaitStep::Sleep));
    match wait_for_peers_stopped(&state, &names, 6, 5) {
        WaitStep::TimedOut(err) => assert_eq!(
            err,
            "timeout waiting for peers to stop. Still running: [PeerName(\"b\")]"
        ),
        _ => panic!("expected a timeout"),
    }
    state.statuses.insert("b".to_string(), "stopped".to_string());
    assert!(matches!(wait_for_peers_stopped(&state, &names, 4, 5), WaitStep::Done));
    match wait_for_peers_stopped(&state, &names, 5, 5) {
        WaitStep::TimedOut(err) => {
            assert_eq!(err, "timeout waiting for peers to stop. Still running: []")
        }
        _ => panic!("expected a timeout"),
    }
}

#[test]
fn statuses_of_all_peers() {
    let mut state = PeerState::new();
    assert!(peers_have_status(&state, &Vec::new(), "stopped"));
    let names = vec![PeerName::new("a")];
    assert!(!peers_have_status(&state, &names, "stopped"));
    state.statuses.insert("a".to_string(), "stopped".to_string());
    assert!(peers_have_status(&state, &names, "stopped"));
    assert!(!peers_have_status(&state, &names, "started"));
}

fn peer_with_bootstrap(name: &str, bootstrap: &[&str]) -> PeerConfig {
    PeerConfig::from_source(PeerSource {
        name: PeerName::new(name),
        image: "i".to_string(),
        bootstrap: Some(bootstrap.iter().map(|b| PeerName::new(b)).collect()),
        environment: None,
        runs_on: None,
    })
}

#[test]
fn introducing_peers() {
    let peers = vec![peer_with_bootstrap("alice", &["bob", "carol"]), peer_with_bootstrap("bob", &[])];
    let mut state = PeerState::new();
    assert!(!bootstrap_wait_is_over(&peers, &state, 10 * SECOND - 1));
    assert!(bootstrap_wait_is_over(&peers, &state, 10 * SECOND));
    state.peer_info.insert("bob".to_string(), ("vlad".to_string(), "/ip4/1.2.3.4".to_string()));
    let steps = send_bootstrap_commands(&peers, &state);
    assert_eq!(steps.len(), 2);
    match &steps[0] {
        BootstrapStep::Send { peer, key, command, note } => {
            assert_eq!(peer, "alice");
            assert_eq!(key, "alice_command");
            assert_eq!(command, "peer|vlad|/ip4/1.2.3.4");
            assert_eq!(note, "sent bootstrap: alice -> bob (/ip4/1.2.3.4)");
        }
        _ => panic!("expected a command"),
    }
    match &steps[1] {
        BootstrapStep::Unknown { warning } => assert_eq!(
            warning,
            "bootstrap peer 'carol' not found in peer_info for 'alice'"
        ),
        _ => panic!("expected a warning"),
    }
    state.peer_info.insert("carol".to_string(), ("v".to_string(), "a".to_string()));
    assert!(bootstrap_wait_is_over(&peers, &state, 0));
    assert_eq!(bootstrap_failure("alice"), "failed to send bootstrap command to alice");
}

#[test]
fn shutting_down_peers() {
    let keys = shutdown_all_peers(&vec![PeerName::new("b"), PeerName::new("a")]);
    assert_eq!(keys, vec!["b_command", "a_command"]);
    assert_eq!(shutdown_command(), "shutdown");
}

#[test]
fn statuses_are_taken_apart() {
    let mut state = PeerState::new();
    let mut last = None;
    match process_status("a", "started|vlad|/ip4/1.2.3.4|x", &mut last, &mut state) {
        Some(PeerEvent::StatusChange { peer, status }) => {
            assert_eq!(peer, "a");
            assert_eq!(status, "started");
        }
        _ => panic!("expected a change"),
    }
    assert_eq!(state.statuses.get("a").unwrap(), "started");
    let (vlad, addr) = state.peer_info.get("a").unwrap();
    assert_eq!(vlad, "vlad");
    assert_eq!(addr, "/ip4/1.2.3.4|x");
    assert!(process_status("a", "started|vlad|/ip4/1.2.3.4|x", &mut last, &mut state).is_none());
    assert!(process_status("a", "connected|x|y", &mut last, &mut state).is_some());
    assert_eq!(state.statuses.get("a").unwrap(), "connected");
    assert_eq!(state.peer_info.get("a").unwrap().0, "vlad");
    assert!(process_status("b", "started|addr", &mut None, &mut state).is_some());
    assert_eq!(state.statuses.get("b").unwrap(), "started");
    assert!(state.peer_info.get("b").is_none());
}

#[test]
fn log_entries_are_taken_apart() {
    let mut state = PeerState::new();
    match process_log("a", "WARN|hello|world", &mut state) {
        Some((level, PeerEvent::LogEntry { peer, level: word, message })) => {
            assert_eq!(level, LogLevel::Warn);
            assert_eq!(peer, "a");
            assert_eq!(word, "warn");
            assert_eq!(message, "hello|world");
        }
        _ => panic!("expected an entry"),
    }
    assert!(process_log("a", "no bar", &mut state).is_none());
    assert_eq!(state.logs, vec![("a".to_string(), "warn".to_string(), "hello|world".to_string())]);
}

#[test]
fn levels_from_words() {
    assert_eq!(parse_level("Error"), LogLevel::Error);
    assert_eq!(parse_level("warn"), LogLevel::Warn);
    assert_eq!(parse_level("INFO"), LogLevel::Info);
    assert_eq!(parse_level("debug"), LogLevel::Debug);
    assert_eq!(parse_level("trace"), LogLevel::Trace);
    assert_eq!(parse_level("fatal"), LogLevel::Trace);
    assert_eq!(parse_level(""), LogLevel::Trace);
}

#[test]
fn monitor_steps() {
    assert_eq!(status_channel_of("alice"), "__keyspace@0__:alice_status");
    let mut state = PeerState::new();
    let mut monitor = PeerMonitor::new("alice");
    assert!(matches!(
        monitor.step(MonitorEvent::Announced("set".into()), &mut state),
        MonitorAction::ReadStatus
    ));
    assert!(matches!(
        monitor.step(MonitorEvent::Announced("del".into()), &mut state),
        MonitorAction::Wait
    ));
    assert!(matches!(monitor.step(MonitorEvent::Read(None), &mut state), MonitorAction::Wait));
    assert!(matches!(
        monitor.step(MonitorEvent::Read(Some("started".into())), &mut state),
        MonitorAction::Tell(PeerEvent::StatusChange { .. })
    ));
    assert!(matches!(
        monitor.step(MonitorEvent::Read(Some("started".into())), &mut state),
        MonitorAction::Wait
    ));
    assert_eq!(state.statuses.get("alice").unwrap(), "started");
    assert!(matches!(
        monitor.step(MonitorEvent::Logged(Some("error|x".into())), &mut state),
        MonitorAction::LogAndTell(LogLevel::Error, _)
    ));
    assert!(matches!(
        monitor.step(MonitorEvent::Logged(Some("x".into())), &mut state),
        MonitorAction::Wait
    ));
    assert!(matches!(monitor.step(MonitorEvent::Logged(None), &mut state), MonitorAction::Wait));
    assert!(matches!(monitor.step(MonitorEvent::Cancelled, &mut state), MonitorAction::Stop));
    match monitor.step(MonitorEvent::Ended, &mut state) {
        MonitorAction::StopWith(why) => assert_eq!(why, "keyspace subscription stream ended"),
        _ => panic!("expected a stop"),
    }
}

#[test]
fn late_peers_are_named() {
    assert_eq!(
        not_started_text("[\"bob\"]"),
        "timeout waiting for peers to start. Missing: [\"bob\"]"
    );
    assert_eq!(
        not_stopped_text("[bob]"),
        "timeout waiting for peers to stop. Still running: [bob]"
    );
}

#[test]
fn sent_log_entries_arrive() {
    let mut state = PeerState::new();
    let entry = log_entry(LogLevel::Info, "connected to 3 peers", "event");
    assert!(process_log("alice", &entry, &mut state).is_some());
    assert_eq!(
        state.logs,
        vec![("alice".to_string(), "info".to_string(), "connected to 3 peers".to_string())]
    );
}

#[test]
fn started_peers_are_introduced() {
    let mut state = PeerState::new();
    let status = started_status("alice", "/ip4/1.2.3.4/udp/7/quic-v1");
    assert!(process_status("alice", &status, &mut None, &mut state).is_some());
    assert_eq!(state.statuses.get("alice").unwrap(), "started");
    let bob = peer_with_bootstrap("bob", &["alice"]);
    match &send_bootstrap_commands(&vec![bob], &state)[0] {
        BootstrapStep::Send { key, command, .. } => {
            assert_eq!(key, "bob_command");
            assert_eq!(command, "peer|alice|/ip4/1.2.3.4/udp/7/quic-v1");
            assert_eq!(
                Command::parse(command),
                Command::Peer { multiaddr: "/ip4/1.2.3.4/udp/7/quic-v1".to_string() }
            );
        }
        _ => panic!("expected an introduction"),
    }
}
