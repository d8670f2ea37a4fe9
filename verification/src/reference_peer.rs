//! A peer that does nothing but follow the protocol.
use vstd::prelude::*;

use crate::client;
use crate::client::{Command, CommandMeaning};
use crate::orchestrator;
use crate::orchestrator::BootstrapView;
use crate::peer_monitor;
use crate::peer_monitor::StateView;
use crate::text;

verus! {

/// The port in the first `udp` part, from part `i` on, that another part follows.
pub open spec fn port_from(parts: Seq<Seq<char>>, i: int) -> Seq<char>
    decreases parts.len() - i,
{
    if i + 1 >= parts.len() {
        "0"@
    } else if parts[i] == "udp"@ {
        parts[i + 1]
    } else {
        port_from(parts, i + 1)
    }
}

/// The port of an address whose parts are separated by slashes: what follows the first `udp`, and
/// `0` where there is no such part.
pub fn extract_port(listen_addr: &str) -> (r: String)
    ensures
        r@ == port_from(text::split_all(listen_addr@, '/'), 0),
{
    let parts = text::split(listen_addr, '/');
    let ghost given = text::split_all(listen_addr@, '/');
    let mut i: usize = 0;
    while i < parts.len()
        invariant
            i <= parts@.len(),
            given == text::split_all(listen_addr@, '/'),
            given == text::texts(parts@),
            port_from(given, 0) == port_from(given, i as int),
        decreases parts@.len() - i,
    {
        if text::same_text(parts[i].as_str(), "udp") && i + 1 < parts.len() {
            return parts[i + 1].clone();
        }
        i = i + 1;
    }
    "0".to_owned()
}

/// The address of a peer at an IP address and a port.
pub open spec fn peer_address(ip: Seq<char>, port: Seq<char>) -> Seq<char> {
    "/ip4/"@ + ip + "/udp/"@ + port + "/quic-v1"@
}

/// The address that a peer tells: its own IP address, with the port of the address that it was told
/// to listen at.
pub fn detect_multiaddr(ip: &str, listen_addr: Option<String>) -> (r: String)
    ensures
        r@ == peer_address(
            ip@,
            match listen_addr {
                Some(addr) => port_from(text::split_all(addr@, '/'), 0),
                None => "0"@,
            },
        ),
{
    let port = match listen_addr {
        Some(addr) => extract_port(addr.as_str()),
        None => "0".to_owned(),
    };
    let mut out = "/ip4/".to_owned();
    out.push_str(ip);
    out.push_str("/udp/");
    out.push_str(port.as_str());
    out.push_str("/quic-v1");
    out
}

/// The status with which a peer reports that it has started, who it is and where.
pub open spec fn started_text(identity: Seq<char>, multiaddr: Seq<char>) -> Seq<char> {
    "started|"@ + identity + "|"@ + multiaddr
}

/// The status with which a peer reports that it has started, who it is and where.
pub fn started_status(identity: &str, multiaddr: &str) -> (r: String)
    ensures
        r@ == started_text(identity@, multiaddr@),
{
    let mut out = "started|".to_owned();
    out.push_str(identity);
    out.push_str("|");
    out.push_str(multiaddr);
    out
}

/// A peer that reports its start is known by its identity, which has no bar in it, and its address,
/// and whoever bootstraps from it is sent both.
pub proof fn started_peers_can_be_bootstrapped_from(
    state: StateView,
    last: Option<Seq<char>>,
    peer: Seq<char>,
    identity: Seq<char>,
    multiaddr: Seq<char>,
    other: Seq<char>,
)
    requires
        !identity.contains('|'),
        last != Some(started_text(identity, multiaddr)),
    ensures
        ({
            let next = peer_monitor::after_status(
                state,
                last,
                peer,
                started_text(identity, multiaddr),
            ).0;
            &&& orchestrator::has_status(next.statuses, peer, "started"@)
            &&& next.peer_info.contains_key(peer)
            &&& next.peer_info[peer] == (identity, multiaddr)
            &&& orchestrator::introduction(next.peer_info, other, peer) matches BootstrapView::Send {
                command,
                ..
            } && client::command_meaning(command) == CommandMeaning::Peer(multiaddr)
                && client::command_vlad(command) == Some(identity)
        }),
{
    reveal_strlit("started|");
    reveal_strlit("started");
    reveal_strlit("|");
    assert(started_text(identity, multiaddr) =~= "started"@ + seq!['|'] + (identity + seq!['|']
        + multiaddr));
    peer_monitor::told_address_is_kept(state, last, peer, identity, multiaddr);
    orchestrator::introductions_are_understood(identity, multiaddr);
}

/// What a peer does about a command.
pub enum Reaction {
    /// Report a status, then end.
    Stop { status: String },
    /// Report a status, write the delay to a file, then end with a code.
    Restart { status: String, file: String, delay: String, code: i32 },
    /// Log the command.
    Note(Command),
    /// End.
    End,
}

/// What a peer does about the next command; there is none when the orchestrator is gone.
pub fn react(command: Option<Command>) -> (r: Reaction)
    ensures
        match command {
            None => r is End,
            Some(Command::Shutdown) => r matches Reaction::Stop { status } && status@
                == "stopped"@,
            Some(Command::Restart { delay_secs }) => {
                &&& r matches Reaction::Restart { status, file, delay, code }
                &&& status@ == "restarting"@
                &&& file@ == "/tmp/delay"@
                &&& delay@ == text::decimal(delay_secs as nat)
                &&& code == 42
            },
            Some(other) => r == Reaction::Note(other),
        },
{
    match command {
        None => Reaction::End,
        Some(Command::Shutdown) => Reaction::Stop { status: "stopped".to_owned() },
        Some(Command::Restart { delay_secs }) => Reaction::Restart {
            status: "restarting".to_owned(),
            file: "/tmp/delay".to_owned(),
            delay: text::decimal_of(delay_secs as u128),
            code: 42,
        },
        Some(other) => Reaction::Note(other),
    }
}

/// The delay that a peer writes down is the one that it was told.
pub proof fn written_delay_reads_back(delay: u64)
    ensures
        text::parsed_u64(text::decimal(delay as nat)) == Some(delay),
{
    text::parse_reads_back_decimal(delay);
}

/// The port of an address that was made for a peer is found in it again, where neither the IP
/// address nor the port has a slash in it and the IP address is not `udp`.
pub proof fn port_is_found_again(ip: Seq<char>, port: Seq<char>)
    requires
        !ip.contains('/'),
        !port.contains('/'),
        ip != "udp"@,
    ensures
        port_from(text::split_all(peer_address(ip, port), '/'), 0) == port,
{
    reveal_strlit("/ip4/");
    reveal_strlit("/udp/");
    reveal_strlit("/quic-v1");
    reveal_strlit("udp");
    let whole = peer_address(ip, port);
    let a = Seq::<char>::empty();
    let b = seq!['i', 'p', '4'];
    let d = seq!['u', 'd', 'p'];
    let f = seq!['q', 'u', 'i', 'c', '-', 'v', '1'];
    let after_port = f;
    let after_udp = port + seq!['/'] + after_port;
    let after_ip = d + seq!['/'] + after_udp;
    let after_ip4 = ip + seq!['/'] + after_ip;
    let after_root = b + seq!['/'] + after_ip4;
    assert(whole =~= a + seq!['/'] + after_root);
    assert(d =~= "udp"@);
    split_off(a, after_root);
    split_off(b, after_ip4);
    split_off(ip, after_ip);
    split_off(d, after_udp);
    split_off(port, after_port);
    let parts = text::split_all(whole, '/');
    assert(parts[0] == a);
    assert(parts[1] == b);
    assert(parts[2] == ip);
    assert(parts[3] == d);
    assert(parts[4] == port);
    assert(a.len() != "udp"@.len());
    assert(b[0] != "udp"@[0]);
    reveal_with_fuel(port_from, 5);
}

proof fn split_off(head: Seq<char>, tail: Seq<char>)
    requires
        !head.contains('/'),
    ensures
        text::split_all(head + seq!['/'] + tail, '/') == seq![head] + text::split_all(tail, '/'),
{
    let whole = head + seq!['/'] + tail;
    assert forall|k: int| 0 <= k < head.len() implies whole[k] != '/' by {
        assert(head.contains(head[k]));
    }
    text::find_is_unique(whole, '/', head.len() as int);
    assert(whole.take(head.len() as int) =~= head);
    assert(whole.skip(head.len() as int + 1) =~= tail);
}

/// Without a `udp` part that another part follows, the port of an address is zero.
pub proof fn other_addresses_have_no_port(parts: Seq<Seq<char>>, i: int)
    requires
        0 <= i,
        forall|k: int| i <= k < parts.len() - 1 ==> #[trigger] parts[k] != "udp"@,
    ensures
        port_from(parts, i) == "0"@,
    decreases parts.len() - i,
{
    if i + 1 < parts.len() {
        other_addresses_have_no_port(parts, i + 1);
    }
}

/// The port is what follows the first `udp` part.
pub proof fn ports_follow_the_first_udp(parts: Seq<Seq<char>>, i: int, k: int)
    requires
        0 <= i <= k < parts.len() - 1,
        parts[k] == "udp"@,
        forall|m: int| i <= m < k ==> #[trigger] parts[m] != "udp"@,
    ensures
        port_from(parts, i) == parts[k + 1],
    decreases k - i,
{
    if i < k {
        assert(parts[i] != "udp"@);
        ports_follow_the_first_udp(parts, i + 1, k);
    }
}

/// What a peer tells holds its own address and the port it was given, each as it is.
pub proof fn told_addresses_hold_address_and_port(ip: Seq<char>, port: Seq<char>)
    ensures
        peer_address(ip, port) == "/ip4/"@ + ip + "/udp/"@ + port + "/quic-v1"@,
        text::occurs(ip, peer_address(ip, port)),
        text::occurs(port, peer_address(ip, port)),
{
    let tail = "/udp/"@ + port + "/quic-v1"@;
    text::parts_occur("/ip4/"@, ip, tail);
    assert("/ip4/"@ + ip + tail =~= peer_address(ip, port));
    text::parts_occur("/ip4/"@ + ip + "/udp/"@, port, "/quic-v1"@);
}

} // verus!
