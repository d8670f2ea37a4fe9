use std::path::Path;
use the_mule::config::{HostConfig, PeerAssignment, PeerName};
use the_mule::containers::{
    check_removal, container_name_of, no_session, prune_command, prune_host, remove_command_of,
    remove_image_command, remove_images_on_host, run_command_of, start_next, start_peer,
    stop_peer, stopped_note, StartAction, StartPhase,
};
use the_mule::distribution::{
    check_distribution, deliver_image, deliver_next, distribute_images, distribution_note,
    ensure_peer_config_dirs, image_hosts, plan_distribution, CheckOutcome, DeliveryAction,
    DeliveryPhase, TaskError,
};
use the_mule::docker_mgr::{
    check_config_root, check_local_image, check_pull, check_remote_image_blocking,
    config_root_command, export_cancelled, export_command, export_next, get_image_size,
    image_id_args, image_size_args, import_image, import_next, pull_args, read_image_id,
    read_image_size, read_pull, remote_image_command, sanitize_image_name, temp_archive_path,
    ExportStep, ImportStep,
};
use the_mule::ssh_mgr::{ExecOutcome, ExitStatus};
use the_mule::text_map::TextMap;

fn assignment(peer: &str, address: &str, port: u16, image: &str) -> PeerAssignment {
    PeerAssignment {
        peer_name: PeerName::new(peer),
        host: HostConfig {
            address: address.to_string(),
            name: None,
            ssh_user: "user".to_string(),
            ssh_auth: "agent".to_string(),
            base_port: 10000,
            tags: Vec::new(),
        },
        port,
        listen_addr: format!("/ip4/0.0.0.0/udp/{}/quic-v1", port),
        extra_env: TextMap::new(),
        docker_image: image.to_string(),
    }
}

#[test]
fn sanitize_simple_name() {
    assert_eq!(sanitize_image_name("alpine"), "alpine");
}

#[test]
fn sanitize_registry_name() {
    assert_eq!(
        sanitize_image_name("registry.example.com/my-image:latest"),
        "registry-example-com-my-image-latest"
    );
}

#[test]
fn sanitize_collapse_hyphens() {
    assert_eq!(sanitize_image_name("a//b::c"), "a-b-c");
}

#[test]
fn sanitize_trim_hyphens() {
    assert_eq!(sanitize_image_name(":leading:"), "leading");
}

#[test]
fn temp_archive_path_prefix() {
    let path = temp_archive_path("alpine:latest");
    let filename = Path::new(&path).file_name().unwrap().to_str().unwrap();
    assert!(filename.starts_with("tm-image-"));
    assert!(filename.ends_with(".tar.gz"));
}

#[test]
fn sanitize_edge_cases() {
    assert_eq!(sanitize_image_name(""), "");
    assert_eq!(sanitize_image_name("---"), "");
    assert_eq!(sanitize_image_name("-a--b-"), "a-b");
    assert_eq!(sanitize_image_name("grün_7"), "grün-7");
    assert_eq!(sanitize_image_name("日本:1"), "日本-1");
    assert_eq!(temp_archive_path("alpine:latest"), "/tmp/tm-image-alpine-latest.tar.gz");
}

#[test]
fn sanitize_twice() {
    for name in ["a//b::c", ":leading:", "registry.example.com/my-image:latest", "x"] {
        let once = sanitize_image_name(name);
        assert_eq!(sanitize_image_name(&once), once);
    }
}

#[test]
fn arguments_for_docker() {
    assert_eq!(image_id_args("a:1"), vec!["image", "inspect", "--format", "{{.Id}}", "a:1"]);
    assert_eq!(image_size_args("a:1"), vec!["image", "inspect", "--format", "{{.Size}}", "a:1"]);
    assert_eq!(pull_args("a:1"), vec!["pull", "a:1"]);
}

#[test]
fn local_images() {
    assert_eq!(check_local_image("a", true, b"  sha256:12\n"), Ok("sha256:12".to_string()));
    assert_eq!(
        check_local_image("a", false, b"sha256:12\n"),
        Err("Docker image 'a' not found locally. Build it with:\n  docker build -t a <path-to-build-context>"
            .to_string())
    );
    assert_eq!(check_local_image("a", true, &[b'x', 0xff, b'\n']), Ok("x\u{fffd}".to_string()));
}

#[test]
fn image_sizes() {
    assert_eq!(get_image_size("a", true, b"1048576\n"), Ok(1048576));
    assert_eq!(
        get_image_size("a", true, b"big\n"),
        Err("failed to parse image size: big".to_string())
    );
    assert_eq!(
        get_image_size("a", false, b"5"),
        Err("failed to get size of Docker image 'a'".to_string())
    );
    assert_eq!(read_image_size(" 7 "), Ok(7));
    assert_eq!(read_image_size(""), Err("failed to parse image size: ".to_string()));
}

#[test]
fn pulled_images() {
    assert_eq!(check_pull("a", true, b""), Ok(()));
    assert_eq!(
        check_pull("a", false, b" no such image\n"),
        Err("docker pull 'a' failed: no such image".to_string())
    );
}

#[test]
fn remote_images() {
    assert_eq!(
        remote_image_command("a:1"),
        "docker image inspect --format '{{.Id}}' 'a:1'"
    );
    let (missing, note) = check_remote_image_blocking("h", "a", "sha\n", 1, "sha");
    assert_eq!(missing, Some("h".to_string()));
    assert_eq!(note, "image 'a' missing on h");
    let (missing, note) = check_remote_image_blocking("h", "a", "sha\n", 0, "sha");
    assert_eq!(missing, None);
    assert_eq!(note, "image 'a' present on h (ID matches)");
    let (missing, note) = check_remote_image_blocking("h", "a", "old\n", 0, "sha");
    assert_eq!(missing, Some("h".to_string()));
    assert_eq!(note, "image 'a' stale on h (local=sha, remote=old)");
}

#[test]
fn export_and_import_commands() {
    assert_eq!(export_command("a", "/tmp/x"), "docker save 'a' | gzip > '/tmp/x'");
    assert!(matches!(export_next("a", None), ExportStep::Poll));
    assert!(matches!(export_next("a", Some(true)), ExportStep::Done));
    match export_next("a", Some(false)) {
        ExportStep::Failed(message) => assert_eq!(message, "docker save failed for 'a'"),
        _ => panic!("expected a failure"),
    }
    assert_eq!(
        export_cancelled("a", "h"),
        "export of 'a' was cancelled, skipping transfer to h"
    );
    assert_eq!(config_root_command(), "mkdir -p ~/peer-config");
}

#[test]
fn import_loads_then_cleans_up() {
    let step = import_image("/tmp/x");
    match &step {
        ImportStep::Load(command) => assert_eq!(command, "docker load -i '/tmp/x'"),
        _ => panic!("expected to load"),
    }
    let step = import_next(step, "/tmp/x", "h", ExitStatus::Success("ok".into()));
    match &step {
        ImportStep::Cleanup(command) => assert_eq!(command, "rm -f '/tmp/x'"),
        _ => panic!("expected to clean up"),
    }
    let step = import_next(step, "/tmp/x", "h", ExitStatus::Success("".into()));
    assert!(matches!(step, ImportStep::Done));
}

#[test]
fn import_failures() {
    let step = import_next(import_image("/tmp/x"), "/tmp/x", "h", ExitStatus::Failed("e".into()));
    match step {
        ImportStep::Failed(message) => assert_eq!(message, "failed to load image on h: e"),
        _ => panic!("expected a failure"),
    }
    let step = import_next(
        ImportStep::Cleanup("rm".into()),
        "/tmp/x",
        "h",
        ExitStatus::Failed("e".into()),
    );
    match step {
        ImportStep::Failed(message) => assert_eq!(message, "failed to cleanup archive on h: e"),
        _ => panic!("expected a failure"),
    }
}

#[test]
fn config_root_failures() {
    assert_eq!(check_config_root("h", ExitStatus::Success("".into())), Ok(()));
    assert_eq!(
        check_config_root("h", ExitStatus::Failed("denied".into())),
        Err("failed to create ~/peer-config on h: denied".to_string())
    );
}

#[test]
fn images_and_their_hosts() {
    let assignments = vec![
        assignment("a", "h0", 1, "x"),
        assignment("b", "h1", 1, "y"),
        assignment("c", "h0", 2, "x"),
        assignment("d", "h1", 2, "x"),
    ];
    let groups = image_hosts(&assignments);
    assert_eq!(groups.len(), 2);
    let x = groups.iter().find(|g| g.image == "x").unwrap();
    assert_eq!(x.hosts, vec!["h0", "h1"]);
    let y = groups.iter().find(|g| g.image == "y").unwrap();
    assert_eq!(y.hosts, vec!["h1"]);
    assert!(image_hosts(&Vec::new()).is_empty());
}

#[test]
fn plans_for_missing_images() {
    let outcomes = vec![
        CheckOutcome::Missing { image: "x:1".into(), host: "h0".into() },
        CheckOutcome::Present,
        CheckOutcome::Missing { image: "y".into(), host: "h0".into() },
        CheckOutcome::Missing { image: "x:1".into(), host: "h1".into() },
    ];
    let plans = match plan_distribution(&outcomes) {
        Ok(plans) => plans,
        Err(message) => panic!("{}", message),
    };
    assert_eq!(plans.len(), 2);
    let x = plans.iter().find(|p| p.image == "x:1").unwrap();
    assert_eq!(x.missing_hosts, vec!["h0", "h1"]);
    assert_eq!(x.archive_path, "/tmp/tm-image-x-1.tar.gz");
    assert_eq!(distribution_note(&plans), "distributing 2 image(s) to 3 host target(s)...");
}

#[test]
fn failed_checks_give_no_plan() {
    let outcomes = vec![
        CheckOutcome::Missing { image: "x".into(), host: "h0".into() },
        CheckOutcome::Error(TaskError::Failed("one".into())),
        CheckOutcome::Error(TaskError::Panicked("two".into())),
        CheckOutcome::Error(TaskError::Lost("three".into())),
    ];
    match plan_distribution(&outcomes) {
        Err(message) => assert_eq!(
            message,
            "failed during remote image checks:\n  one\n  task panic: two\n  join error: three"
        ),
        Ok(_) => panic!("expected an error"),
    }
}

#[test]
fn task_errors_are_reported() {
    assert_eq!(ensure_peer_config_dirs(&Vec::new()), Ok(()));
    assert_eq!(check_distribution(&Vec::new()), Ok(()));
    let errors = vec![TaskError::Failed("a".into()), TaskError::Lost("b".into())];
    assert_eq!(
        ensure_peer_config_dirs(&errors),
        Err("failed to ensure peer-config dirs:\n  a\n  join error: b".to_string())
    );
    assert_eq!(
        check_distribution(&errors),
        Err("image distribution errors:\n  a\n  join error: b".to_string())
    );
}

#[test]
fn run_command_sets_the_system_variables_last() {
    let mut a = assignment("alice", "h0", 11984, "img:1");
    a.extra_env.insert("RUST_LOG".to_string(), "debug".to_string());
    a.extra_env.insert("REDIS_URL".to_string(), "mine".to_string());
    assert_eq!(
        run_command_of(&a, "redis://10.0.0.1:6399"),
        "docker run -d --name tm-alice -v ~/peer-config/tm-alice-config:/config -p 11984:11984/udp -e RUST_LOG=debug -e REDIS_URL=mine -e REDIS_URL=redis://10.0.0.1:6399 -e PEER_NAME=alice -e LISTEN_ADDR=/ip4/0.0.0.0/udp/11984/quic-v1 -e HOST_NAME=h0 img:1"
    );
    a.extra_env = TextMap::new();
    a.host.name = Some("box".to_string());
    assert!(run_command_of(&a, "u").ends_with(" -p 11984:11984/udp -e REDIS_URL=u -e PEER_NAME=alice -e LISTEN_ADDR=/ip4/0.0.0.0/udp/11984/quic-v1 -e HOST_NAME=box img:1"));
}

fn ran(text: &str) -> ExecOutcome {
    ExecOutcome::Ran(ExitStatus::Success(text.to_string()))
}

fn failed(text: &str) -> ExecOutcome {
    ExecOutcome::Ran(ExitStatus::Failed(text.to_string()))
}

fn broken(text: &str) -> ExecOutcome {
    ExecOutcome::Broken(text.to_string())
}

fn command_of(action: StartAction, wanted: StartPhase) -> String {
    match action {
        StartAction::Exec(phase, command) => {
            assert!(phase == wanted);
            command
        }
        _ => panic!("expected a command"),
    }
}

fn failure_of(action: StartAction) -> String {
    match action {
        StartAction::Failed(message) => message,
        _ => panic!("expected a failure"),
    }
}

fn unreachable_of(action: StartAction) -> String {
    match action {
        StartAction::Unreachable(message) => message,
        _ => panic!("expected an unreachable host"),
    }
}

#[test]
fn starting_a_peer() {
    let a = assignment("alice", "h0", 7, "img");
    assert_eq!(
        command_of(start_peer(&a, true), StartPhase::Removing),
        "docker rm -f tm-alice"
    );
    assert_eq!(unreachable_of(start_peer(&a, false)), "no SSH session for h0");
    assert_eq!(no_session("h0"), "no SSH session for h0");
    for outcome in [ran(""), failed("e"), broken("e")] {
        assert_eq!(
            command_of(start_next(&a, "u", StartPhase::Removing, &outcome), StartPhase::MakingDirectory),
            "mkdir -p ~/peer-config/tm-alice-config"
        );
    }
    assert_eq!(
        command_of(start_next(&a, "u", StartPhase::MakingDirectory, &ran("")), StartPhase::Running),
        run_command_of(&a, "u")
    );
    match start_next(&a, "u", StartPhase::Running, &ran("abc\n")) {
        StartAction::Started(command, note) => {
            assert_eq!(command, run_command_of(&a, "u"));
            assert_eq!(note, "started peer 'alice' on h0:7 (container: abc)");
        }
        _ => panic!("expected a start"),
    }
}

#[test]
fn starting_a_peer_fails() {
    let a = assignment("alice", "h0", 7, "img");
    assert_eq!(
        failure_of(start_next(&a, "u", StartPhase::MakingDirectory, &failed("full"))),
        "failed to create ~/peer-config/tm-alice-config on h0: full"
    );
    assert_eq!(
        unreachable_of(start_next(&a, "u", StartPhase::MakingDirectory, &broken("gone"))),
        "gone"
    );
    assert_eq!(
        failure_of(start_next(&a, "u", StartPhase::Running, &failed("port in use"))),
        "failed to start peer alice on h0: port in use"
    );
    assert_eq!(unreachable_of(start_next(&a, "u", StartPhase::Running, &broken("gone"))), "gone");
}

#[test]
fn stopping_a_peer() {
    assert_eq!(container_name_of("alice"), "tm-alice");
    assert_eq!(remove_command_of("alice"), "docker rm -f tm-alice");
    assert_eq!(stop_peer("alice", "h0", true), Ok("docker rm -f tm-alice".to_string()));
    assert_eq!(stop_peer("alice", "h0", false), Err("no SSH session for h0".to_string()));
    assert_eq!(stopped_note("alice", "h0"), "stopped peer 'alice' on h0");
    assert_eq!(check_removal("alice", &ran("tm-alice")), None);
    assert_eq!(
        check_removal("alice", &failed("e")),
        Some("failed to remove container tm-alice: e".to_string())
    );
    assert_eq!(
        check_removal("alice", &broken("b")),
        Some("failed to remove container tm-alice: b".to_string())
    );
}

#[test]
fn removing_images() {
    assert_eq!(remove_image_command("a:1"), "docker rmi -f 'a:1'");
    let r = remove_images_on_host("a", "h", ran("x"), true);
    assert!(!r.warns);
    assert_eq!(r.log, "  removed image 'a' on h");
    assert_eq!(r.print, Some("  removed image 'a' on h".to_string()));
    let r = remove_images_on_host("a", "h", failed("e"), true);
    assert!(r.warns);
    assert_eq!(r.log, "failed to remove image 'a' on h: e");
    assert_eq!(r.print, Some("  warning: failed to remove 'a' on h: e".to_string()));
    assert_eq!(remove_images_on_host("a", "h", ran("x"), false).print, None);
    assert_eq!(remove_images_on_host("a", "h", failed("e"), false).print, None);
    let r = remove_images_on_host("a", "h", broken("e"), true);
    assert!(r.warns);
    assert_eq!(r.log, "failed to remove image 'a' on h: e");
    assert_eq!(r.print, None);
}

#[test]
fn pruning_hosts() {
    assert_eq!(prune_command(), "docker system prune -af");
    let r = prune_host("h", ran(" freed 1GB\n"), true);
    assert!(!r.warns);
    assert_eq!(r.log, "  pruned Docker on h: freed 1GB");
    assert_eq!(r.print, Some("  pruned Docker on h".to_string()));
    let r = prune_host("h", failed("e"), true);
    assert!(r.warns);
    assert_eq!(r.log, "docker system prune failed on h: e");
    assert_eq!(r.print, Some("  warning: prune failed on h: e".to_string()));
    assert_eq!(prune_host("h", ran("x"), false).print, None);
    assert_eq!(prune_host("h", failed("e"), false).print, None);
    let r = prune_host("h", broken("e"), true);
    assert_eq!(r.log, "docker system prune failed on h: e");
    assert_eq!(r.print, None);
}

#[test]
fn image_answers_as_text() {
    assert_eq!(read_image_id("a", true, " sha256:1\n"), Ok("sha256:1".to_string()));
    assert_eq!(
        read_image_id("a:b", false, "x"),
        Err("Docker image 'a:b' not found locally. Build it with:\n  docker build -t a:b \
             <path-to-build-context>"
            .to_string())
    );
    assert_eq!(read_pull("a", true, "noise"), Ok(()));
    assert_eq!(
        read_pull("a", false, " no such image\n"),
        Err("docker pull 'a' failed: no such image".to_string())
    );
}

#[test]
fn images_go_to_the_hosts_that_need_them() {
    let missing = |image: &str, host: &str| CheckOutcome::Missing {
        image: image.to_string(),
        host: host.to_string(),
    };
    let outcomes =
        vec![missing("a:1", "h0"), CheckOutcome::Present, missing("b", "h0"), missing("a:1", "h1")];
    let plans = plan_distribution(&outcomes).unwrap();
    let deliveries: Vec<(String, String, String, String)> = distribute_images(&plans)
        .into_iter()
        .map(|d| (d.image, d.host, d.archive, d.remote_archive))
        .collect();
    let expected: Vec<(String, String, String, String)> = vec![
        ("a:1", "h0", "/tmp/tm-image-a-1.tar.gz"),
        ("a:1", "h1", "/tmp/tm-image-a-1.tar.gz"),
        ("b", "h0", "/tmp/tm-image-b.tar.gz"),
    ]
    .into_iter()
    .map(|(i, h, p)| (i.to_string(), h.to_string(), p.to_string(), p.to_string()))
    .collect();
    assert_eq!(deliveries, expected);
    assert!(distribute_images(&Vec::new()).is_empty());
}

fn shown_delivery(action: DeliveryAction) -> String {
    match action {
        DeliveryAction::Run(phase) => format!("{:?}", phase),
        DeliveryAction::Done(note) => format!("done: {}", note),
        DeliveryAction::Failed(message) => format!("failed: {}", message),
    }
}

#[test]
fn deliveries_take_three_phases() {
    let outcomes = vec![CheckOutcome::Missing { image: "a".to_string(), host: "h".to_string() }];
    let plans = plan_distribution(&outcomes).unwrap();
    let delivery = &distribute_images(&plans)[0];
    let next = |phase: DeliveryPhase, failure: Option<&str>| {
        shown_delivery(deliver_next(delivery, phase, failure.map(|f| f.to_string())))
    };
    assert_eq!(shown_delivery(deliver_image()), "Exporting");
    assert_eq!(next(DeliveryPhase::Exporting, None), "Transferring");
    assert_eq!(next(DeliveryPhase::Transferring, None), "Importing");
    assert_eq!(next(DeliveryPhase::Importing, None), "done: image 'a' distributed to h");
    assert_eq!(
        next(DeliveryPhase::Exporting, Some("x")),
        "failed: export of 'a' was cancelled, skipping transfer to h"
    );
    assert_eq!(next(DeliveryPhase::Transferring, Some("x")), "failed: x");
    assert_eq!(next(DeliveryPhase::Importing, Some("y")), "failed: y");
}
