use the_mule::client::{
    command_key_of, log_entry, log_key_of, poll_next, redis_error_message, status_key_of, Command,
    MessageVisitor, MuleClientBuilder, MuleError, PollResult, PollStep,
};
use the_mule::config::LogLevel;
use the_mule::reference_peer::{detect_multiaddr, extract_port, react, started_status, Reaction};

#[test]
fn parse_connect() {
    assert_eq!(Command::parse("connect"), Command::Connect);
}

#[test]
fn parse_disconnect() {
    assert_eq!(Command::parse("disconnect"), Command::Disconnect);
}

#[test]
fn parse_shutdown() {
    assert_eq!(Command::parse("shutdown"), Command::Shutdown);
}

#[test]
fn parse_restart() {
    assert_eq!(Command::parse("restart|5"), Command::Restart { delay_secs: 5 });
}

#[test]
fn parse_restart_invalid_delay() {
    assert_eq!(Command::parse("restart|abc"), Command::Test("restart|abc".to_string()));
}

#[test]
fn parse_peer() {
    assert_eq!(
        Command::parse("peer|/ip4/1.2.3.4/udp/10000/quic-v1"),
        Command::Peer { multiaddr: "/ip4/1.2.3.4/udp/10000/quic-v1".to_string() }
    );
}

#[test]
fn parse_test() {
    assert_eq!(Command::parse("foobar"), Command::Test("foobar".to_string()));
}

#[test]
fn parse_looks_at_the_first_word_only() {
    assert_eq!(Command::parse("connect|now"), Command::Connect);
    assert_eq!(Command::parse("shutdown|"), Command::Shutdown);
    assert_eq!(Command::parse("connected"), Command::Test("connected".to_string()));
    assert_eq!(Command::parse(""), Command::Test("".to_string()));
    assert_eq!(Command::parse("|connect"), Command::Test("|connect".to_string()));
}

#[test]
fn parse_restart_needs_a_number() {
    assert_eq!(Command::parse("restart"), Command::Test("restart".to_string()));
    assert_eq!(Command::parse("restart|"), Command::Test("restart|".to_string()));
    assert_eq!(Command::parse("restart|+7"), Command::Restart { delay_secs: 7 });
    assert_eq!(Command::parse("restart|007"), Command::Restart { delay_secs: 7 });
    assert_eq!(
        Command::parse("restart|18446744073709551615"),
        Command::Restart { delay_secs: u64::MAX }
    );
    assert_eq!(
        Command::parse("restart|18446744073709551616"),
        Command::Test("restart|18446744073709551616".to_string())
    );
    assert_eq!(Command::parse("restart|-1"), Command::Test("restart|-1".to_string()));
    assert_eq!(Command::parse("restart| 5"), Command::Test("restart| 5".to_string()));
}

#[test]
fn parse_peer_takes_the_address() {
    assert_eq!(Command::parse("peer"), Command::Test("peer".to_string()));
    assert_eq!(
        Command::parse("peer|vlad123|/ip4/1.2.3.4/udp/10000/quic-v1"),
        Command::Peer { multiaddr: "/ip4/1.2.3.4/udp/10000/quic-v1".to_string() }
    );
    assert_eq!(Command::parse("peer||/ip4"), Command::Peer { multiaddr: "/ip4".to_string() });
    assert_eq!(Command::parse("peer|v|a|b"), Command::Peer { multiaddr: "a|b".to_string() });
    assert_eq!(Command::parse("peer|"), Command::Peer { multiaddr: "".to_string() });
}

#[test]
fn identities_of_peers() {
    assert_eq!(Command::vlad("peer|vlad123|/ip4/1.2.3.4"), Some("vlad123".to_string()));
    assert_eq!(Command::vlad("peer|v|a|b"), Some("v".to_string()));
    assert_eq!(Command::vlad("peer||/ip4"), Some("".to_string()));
    assert_eq!(Command::vlad("peer|/ip4/1.2.3.4"), None);
    assert_eq!(Command::vlad("peer"), None);
    assert_eq!(Command::vlad("push|bob|hello"), None);
    assert_eq!(Command::vlad(""), None);
}

#[test]
fn parse_messages() {
    assert_eq!(
        Command::parse("push|bob|hello"),
        Command::Push { peer: "bob".to_string(), message: "hello".to_string() }
    );
    assert_eq!(
        Command::parse("push|bob|a|b"),
        Command::Push { peer: "bob".to_string(), message: "a|b".to_string() }
    );
    assert_eq!(Command::parse("push"), Command::Test("push".to_string()));
    assert_eq!(Command::parse("push|bob"), Command::Test("push|bob".to_string()));
    assert_eq!(Command::parse("pull"), Command::Pull);
    assert_eq!(Command::parse("pull|now"), Command::Pull);
    assert_eq!(Command::parse("rotate-key"), Command::RotateKey);
    assert_eq!(Command::parse("rotate"), Command::Test("rotate".to_string()));
    assert_eq!(Command::parse("track|bob"), Command::Track { peer: "bob".to_string() });
    assert_eq!(Command::parse("track|a|b"), Command::Track { peer: "a|b".to_string() });
    assert_eq!(Command::parse("track"), Command::Test("track".to_string()));
}

#[test]
fn builder_missing_redis_url() {
    let builder = MuleClientBuilder::new(None, Some("test".into()));
    let result = builder.build();
    assert!(result.is_err());
    match result {
        Err(e) => assert!(e.to_string().contains("REDIS_URL")),
        Ok(_) => panic!("expected an error"),
    }
}

#[test]
fn builder_missing_peer_name() {
    let builder = MuleClientBuilder::new(Some("redis://localhost:6379".into()), None);
    let result = builder.build();
    assert!(result.is_err());
    match result {
        Err(e) => assert!(e.to_string().contains("PEER_NAME")),
        Ok(_) => panic!("expected an error"),
    }
}

#[test]
fn builder_settles_the_keys() {
    let settings = match MuleClientBuilder::new(None, None)
        .redis_url("redis://localhost:6379")
        .peer_name("alice")
        .build()
    {
        Ok(settings) => settings,
        Err(e) => panic!("{}", e.to_string()),
    };
    assert_eq!(settings.peer_name, "alice");
    assert_eq!(settings.command_key, "alice_command");
    assert_eq!(settings.status_key, "alice_status");
    assert_eq!(settings.log_key, "alice_log");
    assert_eq!(
        settings.redis.get_connection_info().addr.to_string(),
        "localhost:6379"
    );
}

#[test]
fn builder_reports_the_address_first() {
    match MuleClientBuilder::new(None, None).build() {
        Err(MuleError::MissingConfig(what)) => assert_eq!(what, "REDIS_URL not set"),
        _ => panic!("expected a missing address"),
    }
    match MuleClientBuilder::new(Some("nonsense".into()), None).build() {
        Err(MuleError::MissingConfig(what)) => assert_eq!(what, "PEER_NAME not set"),
        _ => panic!("expected a missing name"),
    }
}

#[test]
fn builder_refuses_what_is_no_redis_address() {
    for url in ["nonsense", "http://localhost:6379", "", "redis://"] {
        match MuleClientBuilder::new(Some(url.into()), Some("alice".into())).build() {
            Err(e) => {
                assert!(matches!(e, MuleError::Redis(_)));
                assert!(e.to_string().starts_with("redis error: "));
                assert!(e.to_string().len() > "redis error: ".len());
            }
            Ok(_) => panic!("{} was accepted", url),
        }
    }
}

#[test]
fn errors_as_messages() {
    let e = MuleError::MissingConfig("REDIS_URL not set".to_string());
    assert_eq!(e.to_string(), "missing config: REDIS_URL not set");
    assert_eq!(redis_error_message("gone"), "redis error: gone");
}

#[test]
fn keys_of_a_peer() {
    assert_eq!(command_key_of("alice"), "alice_command");
    assert_eq!(status_key_of("alice"), "alice_status");
    assert_eq!(log_key_of("alice"), "alice_log");
}

#[test]
fn log_entries() {
    assert_eq!(
        log_entry(LogLevel::Info, "connected to 3 peers", "event"),
        "info|connected to 3 peers"
    );
    assert_eq!(log_entry(LogLevel::Error, "a|b", "event"), "error|a|b");
    assert_eq!(log_entry(LogLevel::Warn, "", "event at x"), "warn|event at x");
    assert_eq!(log_entry(LogLevel::Debug, "d", "e"), "debug|d");
    assert_eq!(log_entry(LogLevel::Trace, "t", "e"), "debug|t");
}

#[test]
fn message_visitor_takes_the_message() {
    let mut visitor = MessageVisitor::new();
    assert_eq!(visitor.message(), "");
    visitor.record("peer", "alice".to_string());
    assert_eq!(visitor.message(), "");
    visitor.record("message", "one".to_string());
    visitor.record("message", "two".to_string());
    visitor.record("messages", "three".to_string());
    assert_eq!(visitor.message(), "two");
}

#[test]
fn ports_in_addresses() {
    assert_eq!(extract_port("/ip4/0.0.0.0/udp/11984/quic-v1"), "11984");
    assert_eq!(extract_port("/ip4/0.0.0.0/tcp/11984"), "0");
    assert_eq!(extract_port("/udp"), "0");
    assert_eq!(extract_port(""), "0");
    assert_eq!(extract_port("udp/udp/7"), "udp");
}

#[test]
fn address_of_a_peer() {
    assert_eq!(
        detect_multiaddr("10.0.0.7", Some("/ip4/0.0.0.0/udp/11984/quic-v1".to_string())),
        "/ip4/10.0.0.7/udp/11984/quic-v1"
    );
    assert_eq!(detect_multiaddr("10.0.0.7", None), "/ip4/10.0.0.7/udp/0/quic-v1");
    assert_eq!(started_status("alice", "/ip4/10.0.0.7"), "started|alice|/ip4/10.0.0.7");
    assert_eq!(extract_port(&detect_multiaddr("1.2.3.4", Some("/udp/5".into()))), "5");
}

#[test]
fn reactions() {
    assert!(matches!(react(None), Reaction::End));
    match react(Some(Command::Shutdown)) {
        Reaction::Stop { status } => assert_eq!(status, "stopped"),
        _ => panic!("expected a stop"),
    }
    match react(Some(Command::parse("restart|15"))) {
        Reaction::Restart { status, file, delay, code } => {
            assert_eq!(status, "restarting");
            assert_eq!(file, "/tmp/delay");
            assert_eq!(delay, "15");
            assert_eq!(code, 42);
        }
        _ => panic!("expected a restart"),
    }
    match react(Some(Command::parse("push|bob|hello"))) {
        Reaction::Note(command) => assert_eq!(
            command,
            Command::Push { peer: "bob".into(), message: "hello".into() }
        ),
        _ => panic!("expected a note"),
    }
}

#[test]
fn waiting_for_commands() {
    match poll_next(PollResult::Taken("restart|3".to_string())) {
        PollStep::Deliver(command, vlad) => {
            assert_eq!(command, Command::Restart { delay_secs: 3 });
            assert_eq!(vlad, None);
        }
        _ => panic!("expected a command"),
    }
    match poll_next(PollResult::Taken("peer|vlad123|/ip4".to_string())) {
        PollStep::Deliver(command, vlad) => {
            assert_eq!(command, Command::Peer { multiaddr: "/ip4".to_string() });
            assert_eq!(vlad, Some("vlad123".to_string()));
        }
        _ => panic!("expected a command"),
    }
    assert!(matches!(poll_next(PollResult::Nothing), PollStep::Again));
    assert!(matches!(poll_next(PollResult::Failed), PollStep::Pause));
}
