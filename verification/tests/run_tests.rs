use the_mule::config::{
    ConfigSource, HostConfig, HostSource, LogLevel, PeerAssignment, PeerName, RedisConfig,
    TestCommand, TestConfig,
};
use the_mule::console::{FieldVisitor, PeerAwareFormatter};
use the_mule::peer_monitor::{PeerEvent, PeerState};
use the_mule::run::{
    cleanup, console_event, hosts_to_connect, log_file_at, log_file_name, log_filter, reset_hosts,
    reset_note, sent_note, shutdown_note, stale_keys, watch_run, CleanupTask, LoopAction, LoopEvent,
    PeerNote, RunStep, TestRun, Watch,
};
use the_mule::text_map::TextMap;
use the_mule::ui::build_batches;

const SECOND: u128 = 1_000_000_000;

fn timed(time: u64, peer: &str, command: &str) -> TestCommand {
    TestCommand { time, peer: PeerName::new(peer), command: command.to_string() }
}

fn some_host(name: Option<&str>) -> HostConfig {
    HostConfig {
        address: "h".to_string(),
        name: name.map(|n| n.to_string()),
        ssh_user: "u".to_string(),
        ssh_auth: "agent".to_string(),
        base_port: 1,
        tags: Vec::new(),
    }
}

#[test]
fn batches_are_sent_when_due() {
    let commands = vec![timed(0, "a", "x"), timed(0, "b", "y"), timed(10, "a", "z")];
    let mut run = TestRun::new(build_batches(&commands, &Vec::new()));
    let pushes = run.due_batch(0).unwrap();
    assert_eq!(pushes.len(), 2);
    assert_eq!(pushes[0].key, "a_command");
    assert_eq!(pushes[0].command, "x");
    assert_eq!(pushes[1].peer, "b");
    run.batch_sent(0);
    assert_eq!(run.current(), 1);
    assert!(run.batches()[0].sent);
    assert_eq!(run.batches()[0].sent_at, Some(0));
    assert!(run.due_batch(10 * SECOND - 1).is_none());
    assert_eq!(run.due_batch(10 * SECOND).unwrap()[0].command, "z");
    run.batch_sent(10);
    assert!(run.due_batch(100 * SECOND).is_none());
}

#[test]
fn runs_shut_down_and_end() {
    let names = vec![PeerName::new("a")];
    let mut state = PeerState::new();
    let mut run = TestRun::new(build_batches(&vec![timed(1, "a", "x")], &Vec::new()));
    assert_eq!(run.next(&state, &names, 0, 30), RunStep::Wait);
    run.batch_sent(1);
    assert_eq!(run.next(&state, &names, SECOND, 30), RunStep::SendShutdown);
    run.shutdown_sent(2 * SECOND);
    assert_eq!(run.next(&state, &names, 2 * SECOND, 30), RunStep::Wait);
    assert_eq!(run.next(&state, &names, 32 * SECOND, 30), RunStep::Wait);
    assert_eq!(run.next(&state, &names, 32 * SECOND + 1, 30), RunStep::TimedOut);
    state.statuses.insert("a".to_string(), "stopped".to_string());
    assert_eq!(run.next(&state, &names, 32 * SECOND + 1, 30), RunStep::Complete);
    assert_eq!(run.next(&state, &names, 0, 30), RunStep::Complete);
}

#[test]
fn runs_without_commands() {
    let state = PeerState::new();
    let mut run = TestRun::new(Vec::new());
    assert!(run.due_batch(SECOND).is_none());
    assert_eq!(run.next(&state, &Vec::new(), 0, 30), RunStep::SendShutdown);
    run.shutdown_sent(0);
    assert_eq!(run.next(&state, &Vec::new(), 0, 30), RunStep::Complete);
}

#[test]
fn notes_of_a_run() {
    assert_eq!(sent_note("0.0", "alice", "connect"), "[0.0s] sent to alice: connect");
    assert_eq!(shutdown_note(None), (false, "all peers stopped gracefully".to_string()));
    assert_eq!(
        shutdown_note(Some("x")),
        (true, "shutdown timeout: x (force-stopping in cleanup)".to_string())
    );
}

fn shown_note(note: Option<PeerNote>) -> String {
    match note {
        Some(n) => format!("{} [{}]{} {}", n.warns, n.peer_name, n.direction, n.message),
        None => "nothing".to_string(),
    }
}

#[test]
fn notes_on_log_lines() {
    let event = PeerEvent::StatusChange { peer: "alice".into(), status: "stopped".into() };
    let note = console_event(&event).unwrap();
    let mut fields = FieldVisitor::new();
    fields.record("peer_name", note.peer_name);
    fields.record("direction", note.direction);
    fields.record("message", note.message);
    assert_eq!(
        PeerAwareFormatter::new(false).line("T", LogLevel::Info, "the_mule", &fields),
        "T  INFO [alice]< stopped\n"
    );
}

#[test]
fn events_on_the_console() {
    let event = PeerEvent::StatusChange { peer: "a".into(), status: "started".into() };
    assert_eq!(shown_note(console_event(&event)), "false [a]< started");
    let entry = |level: &str| PeerEvent::LogEntry {
        peer: "a".into(),
        level: level.into(),
        message: "m".into(),
    };
    assert_eq!(shown_note(console_event(&entry("error"))), "true [a]: [error] m");
    assert_eq!(shown_note(console_event(&entry("warn"))), "true [a]: [warn] m");
    assert!(console_event(&entry("info")).is_none());
    assert!(console_event(&entry("debug")).is_none());
}

#[test]
fn log_files_and_filters() {
    assert_eq!(log_filter(None), "info");
    assert_eq!(log_filter(Some(LogLevel::Trace)), "trace");
    assert_eq!(log_file_at("smoke", "now"), "smoke-now.log");
    assert_eq!(
        log_file_name("smoke", 1_431_648_061),
        Some("smoke-2015-05-15-00-01-01.log".to_string())
    );
    assert_eq!(log_file_name("smoke", i64::MIN), None);
}

#[test]
fn keys_from_earlier_runs() {
    let assignment = |name: &str| PeerAssignment {
        peer_name: PeerName::new(name),
        host: some_host(None),
        port: 1,
        listen_addr: String::new(),
        extra_env: TextMap::new(),
        docker_image: "i".to_string(),
    };
    assert_eq!(
        stale_keys(&vec![assignment("a"), assignment("b")]),
        vec!["a_command", "a_log", "b_command", "b_log"]
    );
}

#[test]
fn one_connection_for_each_address() {
    let addresses: Vec<String> = ["x", "y", "x", "z", "y"].iter().map(|s| s.to_string()).collect();
    assert_eq!(hosts_to_connect(&addresses), vec![0, 1, 3]);
    assert!(hosts_to_connect(&Vec::new()).is_empty());
}

#[test]
fn notes_on_cleaning() {
    assert_eq!(reset_note(true, 3, &some_host(None)), "pruning Docker on h...");
    assert_eq!(reset_note(false, 3, &some_host(Some("box"))), "removing 3 image(s) on box...");
}

fn config_to_clean(remove_images: bool) -> TestConfig {
    let host = |address: &str| HostSource {
        address: address.to_string(),
        name: None,
        ssh_user: "u".to_string(),
        ssh_auth: "agent".to_string(),
        base_port: 1,
        tags: None,
    };
    TestConfig::from_source(ConfigSource {
        name: "t".to_string(),
        timeout: None,
        redis: RedisConfig { port: 1, image: "r".to_string() },
        images: Some(vec!["i".to_string(), "j".to_string()]),
        remove_images: Some(remove_images),
        peer_environment: None,
        hosts: vec![host("x"), host("y")],
        peers: Vec::new(),
        commands: Vec::new(),
        log_level: None,
    })
}

fn assigned_to(peer: &str, address: &str) -> PeerAssignment {
    let mut host = some_host(None);
    host.address = address.to_string();
    PeerAssignment {
        peer_name: PeerName::new(peer),
        host,
        port: 1,
        listen_addr: String::new(),
        extra_env: TextMap::new(),
        docker_image: "i".to_string(),
    }
}

fn shown_task(task: &CleanupTask) -> String {
    match task {
        CleanupTask::Tell(line) => format!("tell {}", line),
        CleanupTask::StopPeer { peer, address } => format!("stop {} {}", peer, address),
        CleanupTask::RemoveImage { image, address } => format!("remove {} {}", image, address),
        CleanupTask::Prune { address } => format!("prune {}", address),
        CleanupTask::StopRedis => "redis".to_string(),
    }
}

#[test]
fn cleaning_up_after_a_run() {
    let assignments = vec![assigned_to("a", "x"), assigned_to("b", "z"), assigned_to("c", "x")];
    let connected = vec!["x".to_string()];
    let shown = |remove: bool, redis: bool| -> Vec<String> {
        cleanup(&config_to_clean(remove), &assignments, &connected, redis)
            .iter()
            .map(shown_task)
            .collect()
    };
    assert_eq!(shown(false, false), vec!["stop a x", "stop c x"]);
    assert_eq!(
        shown(true, true),
        vec!["stop a x", "stop c x", "remove i x", "remove j x", "redis"]
    );
}

#[test]
fn cleaning_hosts_without_a_run() {
    let shown = |everything: bool| -> Vec<String> {
        reset_hosts(&config_to_clean(false), everything).iter().map(shown_task).collect()
    };
    assert_eq!(
        shown(true),
        vec!["tell pruning Docker on x...", "prune x", "tell pruning Docker on y...", "prune y"]
    );
    assert_eq!(
        shown(false),
        vec![
            "tell removing 2 image(s) on x...",
            "remove i x",
            "remove j x",
            "tell removing 2 image(s) on y...",
            "remove i y",
            "remove j y"
        ]
    );
}

fn shown_action(action: LoopAction) -> String {
    match action {
        LoopAction::Go => "go".to_string(),
        LoopAction::Note(warns, note) => format!("note {} {}", warns, note),
        LoopAction::Tell(note) => format!("peer {}", shown_note(Some(note))),
        LoopAction::TellPeers(note) => format!("tell {}", note),
        LoopAction::ShutDown(note) => format!("down {}", note),
        LoopAction::End(Some((warns, note))) => format!("end {} {}", warns, note),
        LoopAction::End(None) => "end".to_string(),
    }
}

#[test]
fn watching_a_run() {
    let on = |watch: Watch, event: LoopEvent| shown_action(watch_run(watch, &event, 30));
    let told = PeerEvent::StatusChange { peer: "a".into(), status: "started".into() };
    assert_eq!(on(Watch::Console, LoopEvent::Told(told)), "peer false [a]< started");
    let told =
        PeerEvent::LogEntry { peer: "a".into(), level: "info".into(), message: "m".into() };
    assert_eq!(on(Watch::Console, LoopEvent::Told(told)), "go");
    assert_eq!(
        on(Watch::Console, LoopEvent::Lagged(7)),
        "note true console event receiver lagged by 7 messages"
    );
    assert_eq!(on(Watch::Console, LoopEvent::Closed), "end");
    assert_eq!(on(Watch::Console, LoopEvent::Step(RunStep::Wait)), "go");
    assert_eq!(
        on(Watch::Console, LoopEvent::Step(RunStep::SendShutdown)),
        "tell all commands sent, sending shutdown to all peers"
    );
    assert_eq!(
        on(Watch::Screen, LoopEvent::Step(RunStep::Complete)),
        "end false all commands sent and all peers stopped -- test complete"
    );
    assert_eq!(
        on(Watch::Console, LoopEvent::Step(RunStep::TimedOut)),
        "end true shutdown timeout exceeded (30s), exiting"
    );
    assert_eq!(
        on(Watch::Screen, LoopEvent::Step(RunStep::TimedOut)),
        "end true shutdown timeout exceeded, exiting"
    );
    assert_eq!(on(Watch::Screen, LoopEvent::Quit), "down user requested quit");
    assert_eq!(
        on(Watch::Screen, LoopEvent::Signal),
        "down signal received, shutting down TUI"
    );
    assert_eq!(
        on(Watch::Console, LoopEvent::Signal),
        "down signal received, initiating orderly shutdown"
    );
}
