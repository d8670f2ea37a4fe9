use the_mule::config::{HostConfig, PeerAssignment, PeerName, TestCommand};
use the_mule::text_map::TextMap;
use the_mule::ui::{
    build_batches, format_elapsed, gap_after, is_showable, peer_pane_height, poll_input,
    render_commands, render_header, render_peers, status_color, Color, InputEvent, RowStyle,
};

fn assigned(peer: &str, address: &str) -> PeerAssignment {
    PeerAssignment {
        peer_name: PeerName::new(peer),
        host: HostConfig {
            address: address.to_string(),
            name: None,
            ssh_user: "user".to_string(),
            ssh_auth: "agent".to_string(),
            base_port: 10000,
            tags: Vec::new(),
        },
        port: 10000,
        listen_addr: "/ip4/0.0.0.0/udp/10000/quic-v1".to_string(),
        extra_env: TextMap::new(),
        docker_image: "test:latest".to_string(),
    }
}

fn command(time: u64, peer: &str, command: &str) -> TestCommand {
    TestCommand { time, peer: PeerName::new(peer), command: command.to_string() }
}

#[test]
fn format_elapsed_zero() {
    assert_eq!(format_elapsed(0), "00:00:00");
}

#[test]
fn format_elapsed_hours_and_mins() {
    assert_eq!(format_elapsed(5025), "01:23:45");
}

#[test]
fn format_elapsed_beyond_two_digits() {
    assert_eq!(format_elapsed(360000), "100:00:00");
    assert_eq!(format_elapsed(59), "00:00:59");
    assert_eq!(format_elapsed(u64::MAX), "5124095576030431:00:15");
}

#[test]
fn build_batches_grouping() {
    let commands = vec![
        command(0, "alice", "connect"),
        command(0, "bob", "connect"),
        command(10, "alice", "push"),
    ];
    let assignments = vec![assigned("alice", "host0")];
    let batches = build_batches(&commands, &assignments);
    assert_eq!(batches.len(), 2);
    assert_eq!(batches[0].time, 0);
    assert_eq!(batches[0].commands.len(), 2);
    assert_eq!(batches[0].delta, 0);
    assert_eq!(batches[1].time, 10);
    assert_eq!(batches[1].commands.len(), 1);
    assert_eq!(batches[1].delta, 10);
    assert_eq!(batches[0].commands[0].host, "host0");
    assert_eq!(batches[0].commands[1].host, "?");
}

#[test]
fn batches_follow_the_given_order() {
    let commands = vec![command(5, "a", "x"), command(3, "a", "y"), command(5, "a", "z")];
    let batches = build_batches(&commands, &vec![assigned("a", "h0"), assigned("a", "h1")]);
    let shown: Vec<(u64, u64)> = batches.iter().map(|b| (b.time, b.delta)).collect();
    assert_eq!(shown, vec![(5, 5), (3, 0), (5, 2)]);
    assert_eq!(batches[0].commands[0].host, "h1");
    assert!(batches.iter().all(|b| !b.sent && b.sent_at.is_none()));
    assert!(build_batches(&Vec::new(), &Vec::new()).is_empty());
}

#[test]
fn status_color_mapping() {
    assert_eq!(status_color("connected"), Color::Green);
    assert_eq!(status_color("connecting"), Color::Yellow);
    assert_eq!(status_color("disconnecting"), Color::Yellow);
    assert_eq!(status_color("disconnected"), Color::Red);
    assert_eq!(status_color("stopped"), Color::Red);
    assert_eq!(status_color("started"), Color::White);
    assert_eq!(status_color("unknown"), Color::DarkGray);
}

#[test]
fn pane_heights() {
    assert_eq!(peer_pane_height(0), 2);
    assert_eq!(peer_pane_height(1), 3);
    assert_eq!(peer_pane_height(2), 3);
    assert_eq!(peer_pane_height(5), 5);
    assert_eq!(peer_pane_height(131072), 2);
}

#[test]
fn header_fills_the_line() {
    let (title, clock) = render_header(40, "smoke", 61);
    assert_eq!(title, " The Mule: smoke");
    assert_eq!(clock, "              00:01:01");
    assert_eq!(clock.len(), 40 - 5 - 13);
    let (_, clock) = render_header(18, "smoke", 0);
    assert_eq!(clock, "00:00:00");
}

#[test]
fn peers_in_two_columns() {
    let mut statuses = TextMap::new();
    statuses.insert("alice".to_string(), "connected".to_string());
    let assignments = vec![assigned("alice", "h0"), assigned("bob", "h1"), assigned("carol", "h2")];
    let lines = render_peers(80, &statuses, &assignments);
    assert_eq!(lines.len(), 2);
    assert_eq!(lines[0].len(), 3);
    assert_eq!(lines[0][0].content, " alice      h0               connected");
    assert_eq!(lines[0][0].color, Some(Color::Green));
    assert_eq!(lines[0][1].content, "  ");
    assert_eq!(lines[0][1].color, None);
    assert_eq!(lines[0][2].content, " bob        h1               pending");
    assert_eq!(lines[0][2].color, Some(Color::DarkGray));
    assert_eq!(lines[1].len(), 1);
    assert!(render_peers(80, &statuses, &Vec::new()).is_empty());
}

#[test]
fn wide_characters_take_two_columns() {
    let mut statuses = TextMap::new();
    statuses.insert("日本".to_string(), "x".to_string());
    let lines = render_peers(80, &statuses, &vec![assigned("日本", "h0"), assigned("b", "h1")]);
    assert_eq!(lines[0][0].content, " 日本         h0               x");
    assert_eq!(lines[0][1].content.len(), 40 - 32);
}

#[test]
fn gaps() {
    assert_eq!(gap_after(3, 5).content, "  ");
    assert_eq!(gap_after(5, 5).content, "");
    assert_eq!(gap_after(9, 5).content, "");
}

#[test]
fn timeline_rows() {
    let commands = vec![
        command(0, "alice", "connect"),
        command(10, "alice", "push|bob|hello-from-alice"),
        command(10, "bob", "pull"),
        command(20, "bob", "shutdown"),
    ];
    let assignments = vec![assigned("alice", "host0"), assigned("bob", "host1")];
    let mut batches = build_batches(&commands, &assignments);
    batches[0].sent = true;
    batches[0].sent_at = Some(1);
    let (rows, scroll) = render_commands(2, &batches, 1, 4);
    assert_eq!(rows.len(), 4);
    assert_eq!(
        rows[0].content,
        "   00:00:01  +0s    alice      host0            connect              sent"
    );
    assert_eq!(rows[0].style, RowStyle::Sent);
    assert_eq!(
        rows[1].content,
        " >           +10s   alice      host0            push|bob|hello-fro.. 6s"
    );
    assert_eq!(rows[1].style, RowStyle::Focused);
    assert_eq!(
        rows[2].content,
        " >                  bob        host1            pull                 6s"
    );
    assert_eq!(
        rows[3].content,
        "             +10s   bob        host1            shutdown             "
    );
    assert_eq!(rows[3].style, RowStyle::Waiting);
    assert_eq!(scroll, 0);
    let (_, scroll) = render_commands(0, &batches, 1, 4);
    assert_eq!(scroll, 1);
    let (_, scroll) = render_commands(0, &batches, 0, 4);
    assert_eq!(scroll, 0);
    batches[0].sent_at = None;
    let (rows, _) = render_commands(9, &batches, 9, 400);
    assert!(rows[0].content.starts_with("   00:00:00  +0s "));
    assert_eq!(rows[1].style, RowStyle::Waiting);
}

#[test]
fn commands_that_can_be_shown() {
    assert!(is_showable("short"));
    assert!(is_showable("12345678901234567890123"));
    assert!(is_showable("ééééééééé123"));
    assert!(!is_showable("a日日日日日日日"));
    assert!(is_showable("日日日日日日日"));
}

#[test]
fn keys_that_quit() {
    assert_eq!(poll_input('q', false), Some(InputEvent::Quit));
    assert_eq!(poll_input('q', true), Some(InputEvent::Quit));
    assert_eq!(poll_input('c', true), Some(InputEvent::Quit));
    assert_eq!(poll_input('c', false), None);
    assert_eq!(poll_input('x', true), None);
}
