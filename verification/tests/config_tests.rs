use the_mule::assignment::{assign_peers, no_host_text, ports_fit};
use the_mule::config::{
    add_environment_entry, default_shutdown_timeout, default_startup_timeout,
    environment_from_list, ConfigSource, HostName, HostSource, LogLevel, PeerName, PeerSource,
    RedisConfig, TagSource, TestConfig, TimeoutConfig, TimeoutSource,
};
use the_mule::text_map::TextMap;

fn host(address: &str, base_port: u16) -> HostSource {
    HostSource {
        address: address.to_string(),
        name: None,
        ssh_user: "user".to_string(),
        ssh_auth: "agent".to_string(),
        base_port,
        tags: None,
    }
}

fn tagged_host(address: &str, base_port: u16, tags: &[&str]) -> HostSource {
    let mut h = host(address, base_port);
    h.tags = Some(tags.iter().map(|t| t.to_string()).collect());
    h
}

fn peer(name: &str, image: &str) -> PeerSource {
    PeerSource {
        name: PeerName::new(name),
        image: image.to_string(),
        bootstrap: None,
        environment: None,
        runs_on: None,
    }
}

fn tagged_peer(name: &str, tags: &[&str]) -> PeerSource {
    let mut p = peer(name, "test:latest");
    p.runs_on = Some(TagSource::List(tags.iter().map(|t| t.to_string()).collect()));
    p
}

fn source(hosts: Vec<HostSource>, peers: Vec<PeerSource>) -> ConfigSource {
    ConfigSource {
        name: "test".to_string(),
        timeout: None,
        redis: RedisConfig { port: 6379, image: "redis:7-alpine".to_string() },
        images: None,
        remove_images: None,
        peer_environment: None,
        hosts,
        peers,
        commands: Vec::new(),
        log_level: None,
    }
}

fn config(hosts: Vec<HostSource>, peers: Vec<PeerSource>) -> TestConfig {
    TestConfig::from_source(source(hosts, peers))
}

fn minimal_config() -> TestConfig {
    config(
        vec![host("host0", 10000)],
        vec![peer("alice", "test:latest"), peer("bob", "test:latest")],
    )
}

fn environment(pairs: &[(&str, &str)]) -> TextMap<String> {
    let mut env = TextMap::new();
    for (k, v) in pairs {
        env.insert(k.to_string(), v.to_string());
    }
    env
}

#[test]
fn parse_minimal_config() {
    let config = minimal_config();
    assert_eq!(config.name, "test");
    assert_eq!(config.peers.len(), 2);
    assert_eq!(config.timeout.startup, 60);
    assert_eq!(config.timeout.shutdown, 30);
}

#[test]
fn parse_full_config_with_timeout() {
    let mut given = source(vec![host("host0", 10000)], vec![peer("alice", "test:latest")]);
    given.name = "full".to_string();
    given.redis.port = 6399;
    given.timeout = Some(TimeoutSource { startup: Some(120), shutdown: Some(45) });
    let config = TestConfig::from_source(given);
    assert_eq!(config.timeout.startup, 120);
    assert_eq!(config.timeout.shutdown, 45);
}

#[test]
fn parse_config_with_images() {
    let mut given = source(vec![host("host0", 10000)], vec![peer("alice", "alpine:latest")]);
    given.images = Some(vec!["alpine:latest".to_string(), "nginx:latest".to_string()]);
    let config = TestConfig::from_source(given);
    assert_eq!(config.images.len(), 2);
    assert_eq!(config.images[0], "alpine:latest");
}

#[test]
fn images_defaults_to_empty() {
    let config = minimal_config();
    assert!(config.images.is_empty());
}

#[test]
fn round_robin_assignment_single_host() {
    let config = minimal_config();
    let assignments = assign_peers(&config).unwrap();
    assert_eq!(assignments.len(), 2);
    assert_eq!(assignments[0].peer_name.as_str(), "alice");
    assert_eq!(assignments[0].port, 10000);
    assert_eq!(assignments[0].docker_image, "test:latest");
    assert_eq!(assignments[1].peer_name.as_str(), "bob");
    assert_eq!(assignments[1].port, 10001);
    assert_eq!(assignments[1].docker_image, "test:latest");
}

#[test]
fn round_robin_assignment_two_hosts() {
    let config = config(
        vec![host("host0", 10000), host("host1", 10000)],
        vec![
            peer("charlie", "test:latest"),
            peer("alice", "test:latest"),
            peer("bob", "test:latest"),
        ],
    );
    let assignments = assign_peers(&config).unwrap();
    assert_eq!(assignments[0].peer_name.as_str(), "alice");
    assert_eq!(assignments[0].host.address, "host0");
    assert_eq!(assignments[0].port, 10000);
    assert_eq!(assignments[0].docker_image, "test:latest");
    assert_eq!(assignments[1].peer_name.as_str(), "bob");
    assert_eq!(assignments[1].host.address, "host1");
    assert_eq!(assignments[1].port, 10000);
    assert_eq!(assignments[2].peer_name.as_str(), "charlie");
    assert_eq!(assignments[2].host.address, "host0");
    assert_eq!(assignments[2].port, 10001);
}

#[test]
fn round_robin_two_hosts_different_base_ports() {
    let config = config(
        vec![host("host0", 10000), host("host1", 20000)],
        vec![
            peer("alice", "img-a:latest"),
            peer("bob", "img-b:latest"),
            peer("charlie", "img-a:latest"),
            peer("dave", "img-b:latest"),
        ],
    );
    let assignments = assign_peers(&config).unwrap();
    assert_eq!(assignments[0].peer_name.as_str(), "alice");
    assert_eq!(assignments[0].port, 10000);
    assert_eq!(assignments[0].docker_image, "img-a:latest");
    assert_eq!(assignments[1].peer_name.as_str(), "bob");
    assert_eq!(assignments[1].port, 20000);
    assert_eq!(assignments[1].docker_image, "img-b:latest");
    assert_eq!(assignments[2].peer_name.as_str(), "charlie");
    assert_eq!(assignments[2].port, 10001);
    assert_eq!(assignments[3].peer_name.as_str(), "dave");
    assert_eq!(assignments[3].port, 20001);
}

#[test]
fn per_peer_image() {
    let config = config(
        vec![host("host0", 10000)],
        vec![peer("alice", "rust-peer:latest"), peer("bob", "python-peer:latest")],
    );
    let assignments = assign_peers(&config).unwrap();
    assert_eq!(assignments[0].docker_image, "rust-peer:latest");
    assert_eq!(assignments[1].docker_image, "python-peer:latest");
}

#[test]
fn host_display_name_defaults_to_address() {
    let config = minimal_config();
    assert_eq!(config.hosts[0].display_name(), "host0");
}

#[test]
fn host_display_name_uses_name_field() {
    let mut h = host("192.168.1.10", 10000);
    h.name = Some("web-server".to_string());
    let config = config(vec![h], vec![peer("alice", "test:latest")]);
    assert_eq!(config.hosts[0].display_name(), "web-server");
    assert_eq!(config.hosts[0].host_name().as_str(), "web-server");
}

#[test]
fn peer_environment_merges_with_global() {
    let mut alice = peer("alice", "test:latest");
    alice.environment = Some(environment(&[("RUST_LOG", "info")]));
    let mut given = source(vec![host("host0", 10000)], vec![alice, peer("bob", "test:latest")]);
    given.peer_environment = Some(environment(&[("RUST_LOG", "debug"), ("GLOBAL_VAR", "hello")]));
    let config = TestConfig::from_source(given);
    let assignments = assign_peers(&config).unwrap();
    assert_eq!(assignments[0].extra_env.get("RUST_LOG").unwrap(), "info");
    assert_eq!(assignments[0].extra_env.get("GLOBAL_VAR").unwrap(), "hello");
    assert_eq!(assignments[1].extra_env.get("RUST_LOG").unwrap(), "debug");
    assert_eq!(assignments[1].extra_env.get("GLOBAL_VAR").unwrap(), "hello");
}

#[test]
fn runs_on_single_string() {
    let mut alice = peer("alice", "test:latest");
    alice.runs_on = Some(TagSource::One("gpu".to_string()));
    let config = config(vec![tagged_host("host0", 10000, &["gpu"])], vec![alice]);
    assert_eq!(config.peers[0].runs_on, vec!["gpu"]);
    let assignments = assign_peers(&config).unwrap();
    assert_eq!(assignments[0].host.address, "host0");
}

#[test]
fn runs_on_tag_matching() {
    let config = config(
        vec![
            tagged_host("gpu-host", 10000, &["gpu", "fast"]),
            tagged_host("cpu-host", 10000, &["cpu"]),
        ],
        vec![
            tagged_peer("alice", &["gpu"]),
            tagged_peer("bob", &["cpu"]),
            peer("charlie", "test:latest"),
        ],
    );
    let assignments = assign_peers(&config).unwrap();
    let alice = assignments.iter().find(|a| a.peer_name.as_str() == "alice").unwrap();
    assert_eq!(alice.host.address, "gpu-host");
    let bob = assignments.iter().find(|a| a.peer_name.as_str() == "bob").unwrap();
    assert_eq!(bob.host.address, "cpu-host");
}

#[test]
fn runs_on_no_matching_host_errors() {
    let config = config(
        vec![tagged_host("host0", 10000, &["cpu"])],
        vec![tagged_peer("alice", &["gpu"])],
    );
    let result = assign_peers(&config);
    assert!(result.is_err());
    assert!(result.unwrap_err().contains("gpu"));
}

#[test]
fn remove_images_defaults_to_false() {
    let config = minimal_config();
    assert!(!config.remove_images);
}

#[test]
fn peer_environment_defaults_to_empty() {
    let config = minimal_config();
    assert!(config.peer_environment.is_empty());
}

#[test]
fn tags_defaults_to_empty() {
    let config = minimal_config();
    assert!(config.hosts[0].tags.is_empty());
}

#[test]
fn runs_on_defaults_to_empty() {
    let config = minimal_config();
    assert!(config.peers[0].runs_on.is_empty());
}

#[test]
fn empty_peers_is_valid() {
    let config = config(vec![host("host0", 10000)], Vec::new());
    assert!(config.peers.is_empty());
    assert!(assign_peers(&config).unwrap().is_empty());
}

#[test]
fn peer_environment_is_optional() {
    let mut bob = peer("bob", "test:latest");
    bob.environment = Some(environment(&[("RUST_LOG", "debug")]));
    let config = config(vec![host("host0", 10000)], vec![peer("alice", "test:latest"), bob]);
    assert!(config.peers[0].environment.is_empty());
    assert_eq!(config.peers[1].environment.get("RUST_LOG").unwrap(), "debug");
}

#[test]
fn peer_environment_list_syntax() {
    let entries = vec!["RUST_LOG=info".to_string(), "MY_VAR=hello=world".to_string()];
    let mut alice = peer("alice", "test:latest");
    alice.environment = Some(environment_from_list(&entries).unwrap());
    let config = config(vec![host("host0", 10000)], vec![alice]);
    assert_eq!(config.peers[0].environment.get("RUST_LOG").unwrap(), "info");
    assert_eq!(config.peers[0].environment.get("MY_VAR").unwrap(), "hello=world");
}

#[test]
fn default_timeout_values() {
    let config = config(vec![host("host0", 10000)], Vec::new());
    assert_eq!(config.timeout.startup, 60);
    assert_eq!(config.timeout.shutdown, 30);
}

#[test]
fn partial_timeout_uses_defaults() {
    let mut given = source(vec![host("host0", 10000)], Vec::new());
    given.timeout = Some(TimeoutSource { startup: Some(120), shutdown: None });
    let config = TestConfig::from_source(given);
    assert_eq!(config.timeout.startup, 120);
    assert_eq!(config.timeout.shutdown, 30);
}

#[test]
fn images_field_deserialization() {
    let mut given = source(vec![host("host0", 10000)], vec![peer("alice", "alpine:latest")]);
    given.images = Some(vec!["alpine:latest".to_string(), "nginx:latest".to_string()]);
    let config = TestConfig::from_source(given);
    assert_eq!(config.images.len(), 2);
    assert_eq!(config.images[0], "alpine:latest");
    assert_eq!(config.images[1], "nginx:latest");
}

#[test]
fn per_peer_docker_image_in_assignment() {
    let config = config(
        vec![host("host0", 10000)],
        vec![peer("alice", "rust-peer:latest"), peer("bob", "python-peer:latest")],
    );
    let assignments = assign_peers(&config).unwrap();
    assert_eq!(assignments[0].peer_name.as_str(), "alice");
    assert_eq!(assignments[0].docker_image, "rust-peer:latest");
    assert_eq!(assignments[1].peer_name.as_str(), "bob");
    assert_eq!(assignments[1].docker_image, "python-peer:latest");
}

#[test]
fn five_peers_on_two_hosts() {
    let config = config(
        vec![host("host-0", 11984), host("host-1", 11984)],
        vec![
            peer("alice", "i"),
            peer("bob", "i"),
            peer("charlie", "i"),
            peer("dave", "i"),
            peer("eve", "i"),
        ],
    );
    let shown: Vec<(String, String, u16)> = assign_peers(&config)
        .unwrap()
        .iter()
        .map(|a| (a.peer_name.as_str().to_string(), a.host.address.clone(), a.port))
        .collect();
    let wanted = [
        ("alice", "host-0", 11984),
        ("bob", "host-1", 11984),
        ("charlie", "host-0", 11985),
        ("dave", "host-1", 11985),
        ("eve", "host-0", 11986),
    ];
    for (a, b) in shown.iter().zip(wanted) {
        assert_eq!((a.0.as_str(), a.1.as_str(), a.2), b);
    }
    assert_eq!(shown.len(), 5);
}

#[test]
fn ports_accumulate_over_groups() {
    let config = config(
        vec![tagged_host("h0", 100, &["a", "b"]), tagged_host("h1", 100, &["b"])],
        vec![
            tagged_peer("p1", &["b"]),
            tagged_peer("p2", &["b", "a"]),
            tagged_peer("p3", &["a", "b"]),
            peer("p4", "i"),
            tagged_peer("p5", &["b"]),
        ],
    );
    let assignments = assign_peers(&config).unwrap();
    let at = |i: usize| (assignments[i].host.address.as_str(), assignments[i].port);
    assert_eq!(at(0), ("h0", 103));
    assert_eq!(at(1), ("h0", 101));
    assert_eq!(at(2), ("h0", 102));
    assert_eq!(at(3), ("h0", 100));
    assert_eq!(at(4), ("h1", 100));
}

#[test]
fn names_are_ordered_by_their_characters() {
    let config = config(
        vec![host("h", 1)],
        vec![peer("b", "i"), peer("é", "i"), peer("a", "i"), peer("B", "i"), peer("ab", "i")],
    );
    let names: Vec<String> = assign_peers(&config)
        .unwrap()
        .iter()
        .map(|a| a.peer_name.as_str().to_string())
        .collect();
    let mut sorted = names.clone();
    sorted.sort();
    assert_eq!(names, sorted);
    assert_eq!(names, vec!["B", "a", "ab", "b", "é"]);
}

#[test]
fn listen_addresses() {
    let assignments = assign_peers(&minimal_config()).unwrap();
    assert_eq!(assignments[1].listen_addr, "/ip4/0.0.0.0/udp/10001/quic-v1");
}

#[test]
fn no_host_message_names_tags_and_peers() {
    let config = config(
        vec![tagged_host("h", 1, &["cpu"])],
        vec![
            tagged_peer("zoe", &["gpu", "fast"]),
            peer("any", "i"),
            tagged_peer("amy", &["fast", "gpu"]),
            tagged_peer("bob", &["zzz"]),
        ],
    );
    assert_eq!(
        assign_peers(&config).unwrap_err(),
        "no host matches tags [\"fast\", \"gpu\"] required by peer(s): amy, zoe"
    );
}

#[test]
fn no_hosts_at_all() {
    let config = config(Vec::new(), vec![peer("b", "i"), peer("a", "i")]);
    assert_eq!(
        assign_peers(&config).unwrap_err(),
        "no host matches tags [] required by peer(s): a, b"
    );
}

#[test]
fn tags_with_quotes_are_escaped() {
    let config = config(vec![host("h", 1)], vec![tagged_peer("a", &["x\"y"])]);
    assert_eq!(
        assign_peers(&config).unwrap_err(),
        "no host matches tags [\"x\\\"y\"] required by peer(s): a"
    );
}

#[test]
fn ports_out_of_range() {
    assert!(ports_fit(&minimal_config()));
    let two = vec![peer("a", "i"), peer("b", "i")];
    assert!(!ports_fit(&config(vec![host("h", 65535)], two)));
    let one = vec![peer("a", "i")];
    let config = config(vec![host("h", 65535)], one);
    assert!(ports_fit(&config));
    assert_eq!(assign_peers(&config).unwrap()[0].port, 65535);
}

#[test]
fn list_entries_need_an_equals_sign() {
    let entries = vec!["A=1".to_string(), "B".to_string(), "C".to_string()];
    match environment_from_list(&entries) {
        Err(message) => {
            assert_eq!(message, "environment list entry must be KEY=VALUE, got: B")
        }
        Ok(_) => panic!("expected an error"),
    }
    let mut env = environment(&[("A", "1")]);
    assert_eq!(add_environment_entry(&mut env, "A=2"), Ok(()));
    assert_eq!(add_environment_entry(&mut env, "=x"), Ok(()));
    assert!(add_environment_entry(&mut env, "").is_err());
    assert_eq!(env.get("A").unwrap(), "2");
    assert_eq!(env.get("").unwrap(), "x");
    assert_eq!(env.len(), 2);
}

#[test]
fn tag_sources() {
    let mut a = peer("a", "i");
    a.runs_on = Some(TagSource::Nothing);
    let config = config(vec![host("h", 1)], vec![a, tagged_peer("b", &["x", "y"])]);
    assert!(config.peers[0].runs_on.is_empty());
    assert_eq!(config.peers[1].runs_on, vec!["x", "y"]);
}

#[test]
fn names_as_shown() {
    assert_eq!(PeerName::new("alice").to_string(), "[alice]");
    assert_eq!(HostName::new("box").to_string(), "<box>");
    assert_eq!(PeerName::new("alice").clone(), PeerName::new("alice"));
    assert_eq!(format!("{:?}", PeerName::new("alice")), "PeerName(\"alice\")");
}

#[test]
fn levels_as_words() {
    assert_eq!(LogLevel::Error.as_filter_str(), "error");
    assert_eq!(LogLevel::Warn.as_filter_str(), "warn");
    assert_eq!(LogLevel::Info.as_filter_str(), "info");
    assert_eq!(LogLevel::Debug.as_filter_str(), "debug");
    assert_eq!(LogLevel::Trace.as_filter_str(), "trace");
}

#[test]
fn default_timeouts() {
    assert_eq!(default_startup_timeout(), 60);
    assert_eq!(default_shutdown_timeout(), 30);
    assert_eq!(TimeoutConfig::default(), TimeoutConfig { startup: 60, shutdown: 30 });
}

#[test]
fn maps_keep_their_order() {
    let mut map = environment(&[("b", "1"), ("a", "2"), ("b", "3")]);
    assert_eq!(map.len(), 2);
    assert_eq!(map.entries()[0], ("b".to_string(), "3".to_string()));
    assert_eq!(map.entries()[1], ("a".to_string(), "2".to_string()));
    assert!(map.contains_key("a"));
    assert!(!map.contains_key("c"));
    let other = environment(&[("a", "9"), ("c", "8")]);
    map.extend(&other);
    assert_eq!(map.get("a").unwrap(), "9");
    assert_eq!(map.get("c").unwrap(), "8");
    assert_eq!(map.clone().len(), 3);
    let pairs = vec![("k".to_string(), "1".to_string()), ("k".to_string(), "2".to_string())];
    assert_eq!(TextMap::from_pairs(&pairs).get("k").unwrap(), "2");
}

#[test]
fn unmatched_tags_are_named() {
    assert_eq!(
        no_host_text("[\"gpu\"]", &vec!["a".to_string(), "b".to_string()]),
        "no host matches tags [\"gpu\"] required by peer(s): a, b"
    );
}

#[test]
fn neither_peers_nor_tags_are_ordered() {
    let hosts = || vec![tagged_host("h0", 100, &["a", "b"]), tagged_host("h1", 200, &["b", "a"])];
    let one = vec![
        tagged_peer("x", &["a", "b"]),
        tagged_peer("y", &["b", "a"]),
        tagged_peer("z", &["a"]),
    ];
    let other = vec![
        tagged_peer("z", &["a"]),
        tagged_peer("y", &["a", "b"]),
        tagged_peer("x", &["b", "a"]),
    ];
    let places = |peers: Vec<PeerSource>| -> Vec<(String, String, u16)> {
        assign_peers(&config(hosts(), peers))
            .unwrap()
            .into_iter()
            .map(|a| (a.peer_name.as_str().to_string(), a.host.address, a.port))
            .collect()
    };
    let expected: Vec<(String, String, u16)> = vec![
        ("x".to_string(), "h0".to_string(), 101),
        ("y".to_string(), "h1".to_string(), 200),
        ("z".to_string(), "h0".to_string(), 100),
    ];
    assert_eq!(places(one), expected);
    assert_eq!(places(other), expected);
}

#[test]
fn unmatched_tags_are_quoted() {
    let peers = vec![tagged_peer("p", &["g\"pu", "plain"])];
    assert_eq!(
        assign_peers(&config(vec![host("h", 1)], peers)).unwrap_err(),
        "no host matches tags [\"g\\\"pu\", \"plain\"] required by peer(s): p"
    );
}
