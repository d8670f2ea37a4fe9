use the_mule::config::LogLevel;
use the_mule::console::{FieldVisitor, LineBuffer, PeerAwareFormatter};

#[test]
fn lines_are_given_when_complete() {
    let mut buffer = LineBuffer::new();
    assert!(buffer.write(b"one").is_empty());
    assert_eq!(buffer.write(b" two\nthree\n\nfo"), vec!["one two", "three", ""]);
    assert_eq!(buffer.flush(), Some("fo".to_string()));
    assert_eq!(buffer.flush(), None);
    assert_eq!(buffer.write(b"\n"), vec![""]);
    assert_eq!(buffer.flush(), None);
}

#[test]
fn lines_do_not_depend_on_the_pieces() {
    let bytes = b"a\nbc\n\nd";
    let mut whole = LineBuffer::new();
    let lines = whole.write(bytes);
    for cut in 0..bytes.len() {
        let mut buffer = LineBuffer::new();
        let mut got = buffer.write(&bytes[..cut]);
        got.extend(buffer.write(&bytes[cut..]));
        assert_eq!(got, lines);
        assert_eq!(buffer.flush(), Some("d".to_string()));
    }
}

#[test]
fn invalid_bytes_are_replaced() {
    let mut buffer = LineBuffer::new();
    assert_eq!(buffer.write(&[b'a', 0xff, b'\n']), vec!["a\u{fffd}"]);
    assert!(buffer.write("é".as_bytes()).is_empty());
    assert_eq!(buffer.flush(), Some("é".to_string()));
}

fn fields(pairs: &[(&str, &str)]) -> FieldVisitor {
    let mut visitor = FieldVisitor::new();
    for (k, v) in pairs {
        visitor.record(k, v.to_string());
    }
    visitor
}

#[test]
fn lines_of_events() {
    let plain = PeerAwareFormatter::new(false);
    assert_eq!(
        plain.line("T", LogLevel::Info, "the_mule::run", &fields(&[("message", "hi")])),
        "T  INFO tm: hi\n"
    );
    assert_eq!(
        plain.line("T", LogLevel::Debug, "other", &fields(&[("message", "hi"), ("x", "y")])),
        "T DEBUG other: hi\n"
    );
    assert_eq!(
        plain.line(
            "T",
            LogLevel::Warn,
            "t",
            &fields(&[("message", "msg"), ("peer", "[alice]"), ("peer_name", "bob")])
        ),
        "T  WARN [alice] msg\n"
    );
    assert_eq!(
        plain.line(
            "T",
            LogLevel::Error,
            "t",
            &fields(&[("message", "stopped"), ("peer_name", "alice"), ("direction", "<")])
        ),
        "T ERROR [alice]< stopped\n"
    );
    assert_eq!(
        plain.line(
            "T",
            LogLevel::Trace,
            "t",
            &fields(&[("peer_name", "alice"), ("message", "[warn] msg")])
        ),
        "T TRACE [alice]: [warn] msg\n"
    );
}

#[test]
fn lines_with_colors() {
    let colored = PeerAwareFormatter::new(true);
    let none = fields(&[]);
    assert_eq!(colored.line("T", LogLevel::Error, "t", &none), "T \x1b[31mERROR\x1b[0m t: \n");
    assert_eq!(colored.line("T", LogLevel::Warn, "t", &none), "T \x1b[33m WARN\x1b[0m t: \n");
    assert_eq!(colored.line("T", LogLevel::Info, "t", &none), "T \x1b[32m INFO\x1b[0m t: \n");
    assert_eq!(colored.line("T", LogLevel::Debug, "t", &none), "T \x1b[34mDEBUG\x1b[0m t: \n");
    assert_eq!(colored.line("T", LogLevel::Trace, "t", &none), "T \x1b[35mTRACE\x1b[0m t: \n");
}

#[test]
fn lines_begin_with_the_moment() {
    let plain = PeerAwareFormatter::new(false);
    let none = fields(&[("message", "m")]);
    assert_eq!(
        plain.format_event(1_431_648_000, 123_456_789, LogLevel::Info, "the_mule", &none),
        Some("2015-05-15T00:00:00.123456Z  INFO tm: m\n".to_string())
    );
    assert_eq!(plain.format_event(i64::MAX, 0, LogLevel::Info, "t", &none), None);
}
