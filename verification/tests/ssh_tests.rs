use the_mule::config::{HostConfig, RedisConfig};
use the_mule::redis_mgr::{
    external_client, keyspace_notifications_command, redis_url, RedisManager,
};
use the_mule::ssh_mgr::{
    agent_login, connect_target, key_file_failure, shellexpand, uses_agent, AgentStep, ExitStatus,
};

fn host_with(auth: &str) -> HostConfig {
    HostConfig {
        address: "h".to_string(),
        name: None,
        ssh_user: "u".to_string(),
        ssh_auth: auth.to_string(),
        base_port: 1,
        tags: Vec::new(),
    }
}

#[test]
fn shellexpand_tilde() {
    let home = "/home/somebody";
    let expanded = shellexpand("~/foo/bar", Some(home));
    assert_eq!(expanded, format!("{}/foo/bar", home));
}

#[test]
fn shellexpand_absolute() {
    let expanded = shellexpand("/etc/ssh/config", Some("/home/somebody"));
    assert_eq!(expanded, "/etc/ssh/config");
}

#[test]
fn shellexpand_relative() {
    let expanded = shellexpand("relative/path", Some("/home/somebody"));
    assert_eq!(expanded, "relative/path");
}

#[test]
fn shellexpand_tilde_to_home() {
    let home = "/home/somebody";
    let expanded = shellexpand("~/.ssh/id_ed25519", Some(home));
    assert_eq!(expanded, format!("{}/.ssh/id_ed25519", home));
}

#[test]
fn shellexpand_joins_as_paths_do() {
    for (home, path) in [("/h", "~/a"), ("/h/", "~/a"), ("", "~/a"), ("/h", "~/"), ("/h", "~//a")] {
        let joined = std::path::PathBuf::from(home).join(&path[2..]);
        assert_eq!(shellexpand(path, Some(home)), joined.to_str().unwrap());
    }
    assert_eq!(shellexpand("~/a", None), "~/a");
    assert_eq!(shellexpand("~", Some("/h")), "~");
    assert_eq!(shellexpand("~x/a", Some("/h")), "~x/a");
    assert_eq!(shellexpand("", Some("/h")), "");
}

fn shown(status: ExitStatus) -> (bool, String) {
    match status {
        ExitStatus::Success(s) => (true, s),
        ExitStatus::Failed(s) => (false, s),
    }
}

#[test]
fn results_of_commands() {
    let of = |code: i32, out: &str, err: &str| {
        shown(ExitStatus::from_output(code, out.to_string(), err.to_string()))
    };
    assert_eq!(of(0, "out", "err"), (true, "out".to_string()));
    assert_eq!(of(1, "out", "err\n"), (false, "err\n".to_string()));
    assert_eq!(of(-1, "out", ""), (false, "out".to_string()));
    assert_eq!(of(2, "out", " \n\t\u{2003}"), (false, "out".to_string()));
}

#[test]
fn agents_and_key_files() {
    assert!(uses_agent(&host_with("agent")));
    assert!(uses_agent(&host_with("AgEnT")));
    assert!(!uses_agent(&host_with("~/.ssh/id")));
    assert!(!uses_agent(&host_with("agent ")));
    assert!(!uses_agent(&host_with("ÀGENT")));
    assert_eq!(connect_target(&host_with("agent")), "h:22");
}

#[test]
fn agent_logins() {
    let host = host_with("agent");
    assert!(matches!(agent_login(&host, 3, 0, false), AgentStep::Offer(0)));
    assert!(matches!(agent_login(&host, 3, 2, false), AgentStep::Offer(2)));
    assert!(matches!(agent_login(&host, 3, 1, true), AgentStep::Done));
    assert!(matches!(agent_login(&host, 3, 3, true), AgentStep::Done));
    match agent_login(&host, 0, 0, false) {
        AgentStep::Failed(message) => {
            assert_eq!(message, "SSH agent has no identities loaded for u@h")
        }
        _ => panic!("expected a failure"),
    }
    match agent_login(&host, 12, 12, false) {
        AgentStep::Failed(message) => assert_eq!(
            message,
            "SSH agent auth failed for u@h: none of 12 loaded identities were accepted"
        ),
        _ => panic!("expected a failure"),
    }
    assert_eq!(key_file_failure(&host, "/k"), "SSH key auth failed for u@h with key /k");
}

#[test]
fn redis_container() {
    let manager = RedisManager::new();
    let config = RedisConfig { port: 6399, image: "redis:7-alpine".to_string() };
    assert_eq!(manager.remove_args(), vec!["rm", "-f", "tm-redis"]);
    assert_eq!(
        manager.run_args(&config),
        vec!["run", "-d", "--name", "tm-redis", "-p", "6399:6379", "redis:7-alpine"]
    );
    assert_eq!(manager.start(true, b"x"), Ok(()));
    assert_eq!(
        manager.start(false, b"no port\n"),
        Err("failed to start Redis container: no port\n".to_string())
    );
    assert_eq!(
        manager.stop(true, b"x"),
        (false, "stopped Redis container 'tm-redis'".to_string())
    );
    assert_eq!(
        manager.stop(false, b"x"),
        (true, "failed to stop Redis container: x".to_string())
    );
}

#[test]
fn redis_clients() {
    assert_eq!(redis_url("10.0.0.1", 6399), "redis://10.0.0.1:6399");
    let client = match RedisManager::new().client(6399) {
        Ok(client) => client,
        Err(e) => panic!("{}", e),
    };
    assert_eq!(client.get_connection_info().addr.to_string(), "127.0.0.1:6399");
    assert_eq!(
        keyspace_notifications_command(),
        vec!["CONFIG", "SET", "notify-keyspace-events", "K$"]
    );
}

#[test]
fn redis_answers_as_text() {
    let manager = RedisManager::new();
    assert_eq!(manager.read_start(true, "x"), Ok(()));
    assert_eq!(
        manager.read_start(false, "port in use"),
        Err("failed to start Redis container: port in use".to_string())
    );
    assert_eq!(
        manager.read_stop(true, ""),
        (false, "stopped Redis container 'tm-redis'".to_string())
    );
    assert_eq!(
        manager.read_stop(false, "gone"),
        (true, "failed to stop Redis container: gone".to_string())
    );
}

#[test]
fn clients_for_servers_that_are_there() {
    match external_client("redis://redis.example.com:6399") {
        Ok(client) => assert_eq!(
            client.get_connection_info().addr.to_string(),
            "redis.example.com:6399"
        ),
        Err(e) => panic!("{}", e),
    }
    assert!(external_client("http://redis.example.com").is_err());
    assert!(external_client("nonsense").is_err());
}
