//! The assignment of peers to hosts: which host each peer runs on, and on which port it listens.
//!
//! Peers are taken in the order of their sorted tags, then of their names. The peers that require
//! the same tags take turns on the hosts that carry those tags, and each host hands out its ports
//! one by one from its base port on.
use vstd::prelude::*;

use crate::config;
use crate::config::{
    AssignmentView, HostConfig, HostView, PeerAssignment, PeerConfig, PeerView, TestConfig,
};
use crate::order;
use crate::order::SortKey;
use crate::outside;
use crate::show;
use crate::text;
use crate::text_map::TextMap;

verus! {

// ---------------------------------------------------------------------------------------------
// What is assigned
// ---------------------------------------------------------------------------------------------
/// The tags that peer `i` requires, sorted.
pub open spec fn required_tags(peers: Seq<PeerView>, i: int) -> Seq<Seq<char>> {
    order::sorted_texts(peers[i].runs_on)
}

/// What the peers are taken in order of: their sorted tags, then their names.
pub open spec fn peer_keys(peers: Seq<PeerView>) -> Seq<(Seq<Seq<char>>, Seq<char>)> {
    Seq::new(peers.len(), |i: int| (required_tags(peers, i), peers[i].name))
}

/// The peers in the order in which they are assigned.
pub open spec fn turns(peers: Seq<PeerView>) -> Seq<int> {
    order::sorted_positions(peer_keys(peers))
}

/// Whether a host carries all of the tags.
pub open spec fn carries(host: HostView, tags: Seq<Seq<char>>) -> bool {
    forall|k: int| 0 <= k < tags.len() ==> host.tags.contains(#[trigger] tags[k])
}

/// The hosts that carry all of the tags, in the order in which they are configured.
pub open spec fn matching_hosts(hosts: Seq<HostView>, tags: Seq<Seq<char>>) -> Seq<int> {
    Seq::new(hosts.len(), |h: int| h).filter(|h: int| carries(hosts[h], tags))
}

/// The hosts on which the peer of turn `t` can run.
pub open spec fn hosts_for_turn(hosts: Seq<HostView>, peers: Seq<PeerView>, t: int) -> Seq<int> {
    matching_hosts(hosts, required_tags(peers, turns(peers)[t]))
}

/// How many of the first `t` turns go to peers that require `tags`.
pub open spec fn turns_before(peers: Seq<PeerView>, tags: Seq<Seq<char>>, t: int) -> int
    decreases t,
{
    if t <= 0 {
        0
    } else {
        turns_before(peers, tags, t - 1) + if required_tags(peers, turns(peers)[t - 1]) == tags {
            1int
        } else {
            0int
        }
    }
}

/// The host of turn `t`: the peers that require the same tags take turns on the matching hosts.
pub open spec fn host_of_turn(hosts: Seq<HostView>, peers: Seq<PeerView>, t: int) -> int {
    let candidates = hosts_for_turn(hosts, peers, t);
    candidates[turns_before(peers, required_tags(peers, turns(peers)[t]), t)
        % candidates.len() as int]
}

/// How many of the first `t` turns went to host `h`.
pub open spec fn ports_taken(hosts: Seq<HostView>, peers: Seq<PeerView>, h: int, t: int) -> int
    decreases t,
{
    if t <= 0 {
        0
    } else {
        ports_taken(hosts, peers, h, t - 1) + if host_of_turn(hosts, peers, t - 1) == h {
            1int
        } else {
            0int
        }
    }
}

/// The port of turn `t`: the base port of its host, and one more for each earlier turn there.
pub open spec fn port_of_turn(hosts: Seq<HostView>, peers: Seq<PeerView>, t: int) -> int {
    let h = host_of_turn(hosts, peers, t);
    hosts[h].base_port + ports_taken(hosts, peers, h, t)
}

/// The first turn from `t` on whose peer no host can run, or the number of turns.
pub open spec fn first_unmatched(hosts: Seq<HostView>, peers: Seq<PeerView>, t: int) -> int
    decreases peers.len() - t,
{
    if t >= peers.len() {
        peers.len() as int
    } else if hosts_for_turn(hosts, peers, t).len() == 0 {
        t
    } else {
        first_unmatched(hosts, peers, t + 1)
    }
}

/// Whether the ports of all turns up to the first unmatched one, and the count of them on each
/// host, are numbers below 2^16.
pub open spec fn ports_in_range(hosts: Seq<HostView>, peers: Seq<PeerView>) -> bool {
    forall|t: int|
        0 <= t < first_unmatched(hosts, peers, 0) ==> #[trigger] port_of_turn(hosts, peers, t)
            <= u16::MAX && ports_taken(hosts, peers, host_of_turn(hosts, peers, t), t) < u16::MAX
}

/// The address at which a peer listens.
pub open spec fn listen_address(port: int) -> Seq<char> {
    "/ip4/0.0.0.0/udp/"@ + text::decimal(port as nat) + "/quic-v1"@
}

/// What the peer of turn `t` is assigned.
pub open spec fn assignment_of_turn(
    hosts: Seq<HostView>,
    peers: Seq<PeerView>,
    common: Map<Seq<char>, Seq<char>>,
    t: int,
) -> AssignmentView {
    let peer = peers[turns(peers)[t]];
    let port = port_of_turn(hosts, peers, t);
    AssignmentView {
        peer_name: peer.name,
        host: hosts[host_of_turn(hosts, peers, t)],
        port: port as u16,
        listen_addr: listen_address(port),
        extra_env: common.union_prefer_right(peer.environment),
        docker_image: peer.image,
    }
}

/// What the turns are reported in order of: the names of their peers.
pub open spec fn name_keys(peers: Seq<PeerView>) -> Seq<(Seq<Seq<char>>, Seq<char>)> {
    Seq::new(peers.len(), |t: int| (Seq::<Seq<char>>::empty(), peers[turns(peers)[t]].name))
}

/// The turns in the order of the names of their peers.
pub open spec fn report_order(peers: Seq<PeerView>) -> Seq<int> {
    order::sorted_positions(name_keys(peers))
}

/// All assignments, in the order of the names of the peers.
pub open spec fn assignments(
    hosts: Seq<HostView>,
    peers: Seq<PeerView>,
    common: Map<Seq<char>, Seq<char>>,
) -> Seq<AssignmentView> {
    Seq::new(
        peers.len(),
        |k: int| assignment_of_turn(hosts, peers, common, report_order(peers)[k]),
    )
}

/// The names, in order of turns from the first one on, of the peers that require `tags`.
pub open spec fn names_requiring(peers: Seq<PeerView>, tags: Seq<Seq<char>>, t: int) -> Seq<
    Seq<char>,
>
    decreases t,
{
    if t <= 0 {
        Seq::empty()
    } else if required_tags(peers, turns(peers)[t - 1]) == tags {
        names_requiring(peers, tags, t - 1).push(peers[turns(peers)[t - 1]].name)
    } else {
        names_requiring(peers, tags, t - 1)
    }
}

/// The message for peers whose tags no host carries.
pub open spec fn no_host_message(peers: Seq<PeerView>, tags: Seq<Seq<char>>) -> Seq<char> {
    "no host matches tags "@ + show::debug_list(tags) + " required by peer(s): "@ + text::joined(
        names_requiring(peers, tags, peers.len() as int),
        ", "@,
    )
}

/// Whether a message names all of the tags that are plain ASCII, and all peers that require the tags.
pub open spec fn names_tags_and_peers(
    message: Seq<char>,
    peers: Seq<PeerView>,
    tags: Seq<Seq<char>>,
) -> bool {
    &&& forall|k: int|
        0 <= k < tags.len() && outside::is_plain(#[trigger] tags[k]) ==> text::occurs(
            tags[k],
            message,
        )
    &&& forall|i: int|
        0 <= i < peers.len() && required_tags(peers, i) == tags ==> text::occurs(
            (#[trigger] peers[i]).name,
            message,
        )
}

// ---------------------------------------------------------------------------------------------
// Assigning
// ---------------------------------------------------------------------------------------------
/// Whether a host carries all of the tags.
fn carries_all(host: &HostConfig, tags: &Vec<String>) -> (r: bool)
    ensures
        r == carries(host@, text::texts(tags@)),
{
    let mut k: usize = 0;
    let ghost wanted = text::texts(tags@);
    while k < tags.len()
        invariant
            k <= tags@.len(),
            wanted == text::texts(tags@),
            forall|m: int| 0 <= m < k ==> host@.tags.contains(#[trigger] wanted[m]),
        decreases tags@.len() - k,
    {
        if !text::contains_text(&host.tags, tags[k].as_str()) {
            assert(!host@.tags.contains(wanted[k as int]));
            return false;
        }
        k = k + 1;
    }
    true
}

/// Carrying tags does not depend on their order.
proof fn carries_in_any_order(host: HostView, tags: Seq<Seq<char>>)
    ensures
        carries(host, order::sorted_texts(tags)) == carries(host, tags),
{
    order::sorted_texts_are_a_permutation(tags);
    let sorted = order::sorted_texts(tags);
    if carries(host, tags) {
        assert forall|k: int| 0 <= k < sorted.len() implies host.tags.contains(
            #[trigger] sorted[k],
        ) by {
            assert(sorted.contains(sorted[k]));
            assert(tags.contains(sorted[k]));
            let m = choose|m: int| 0 <= m < tags.len() && tags[m] == sorted[k];
            assert(host.tags.contains(tags[m]));
        }
    }
    if carries(host, sorted) {
        assert forall|k: int| 0 <= k < tags.len() implies host.tags.contains(
            #[trigger] tags[k],
        ) by {
            assert(tags.contains(tags[k]));
            assert(sorted.contains(tags[k]));
            let m = choose|m: int| 0 <= m < sorted.len() && sorted[m] == tags[k];
            assert(host.tags.contains(sorted[m]));
        }
    }
}

/// The hosts that carry all of the tags.
fn find_hosts(hosts: &Vec<HostConfig>, tags: &Vec<String>) -> (r: Vec<usize>)
    ensures
        order::positions(r@) == matching_hosts(
            config::hosts_view(hosts@),
            order::sorted_texts(text::texts(tags@)),
        ),
        forall|k: int| 0 <= k < r@.len() ==> #[trigger] r@[k] < hosts@.len(),
{
    let mut out: Vec<usize> = Vec::new();
    let mut h: usize = 0;
    let ghost views = config::hosts_view(hosts@);
    let ghost sorted = order::sorted_texts(text::texts(tags@));
    let ghost all = Seq::new(views.len(), |h: int| h);
    let ghost fits = |h: int| carries(views[h], sorted);
    proof {
        reveal(Seq::filter);
        assert(order::positions(out@) =~= all.take(0).filter(fits));
    }
    while h < hosts.len()
        invariant
            h <= hosts@.len(),
            views == config::hosts_view(hosts@),
            sorted == order::sorted_texts(text::texts(tags@)),
            all == Seq::new(views.len(), |h: int| h),
            fits == (|h: int| carries(views[h], sorted)),
            order::positions(out@) == all.take(h as int).filter(fits),
            forall|k: int| 0 <= k < out@.len() ==> #[trigger] out@[k] < hosts@.len(),
        decreases hosts@.len() - h,
    {
        let ghost before = out@;
        let wanted = carries_all(&hosts[h], tags);
        proof {
            carries_in_any_order(views[h as int], text::texts(tags@));
            reveal(Seq::filter);
            assert(all.take(h + 1).drop_last() =~= all.take(h as int));
            assert(all.take(h + 1).last() == h);
        }
        if wanted {
            out.push(h);
            assert(order::positions(out@) =~= order::positions(before).push(h as int));
        }
        h = h + 1;
    }
    assert(all.take(all.len() as int) =~= all);
    out
}

/// What each peer is taken in order of.
fn keys_of_peers(peers: &Vec<PeerConfig>) -> (r: Vec<SortKey>)
    ensures
        order::key_pairs(r@) == peer_keys(config::peers_view(peers@)),
{
    let mut keys: Vec<SortKey> = Vec::new();
    let mut i: usize = 0;
    while i < peers.len()
        invariant
            i <= peers@.len(),
            order::key_pairs(keys@) == peer_keys(config::peers_view(peers@)).take(i as int),
        decreases peers@.len() - i,
    {
        let ghost before = keys@;
        let key = SortKey {
            tags: order::sort_texts(&peers[i].runs_on),
            name: text::chars_of(peers[i].name.as_str()),
        };
        let ghost pair = (order::rows(key.tags@), key.name@);
        keys.push(key);
        assert(order::key_pairs(keys@) =~= order::key_pairs(before).push(pair));
        assert(pair == peer_keys(config::peers_view(peers@))[i as int]);
        i = i + 1;
    }
    keys
}

/// Who runs where: the turns, and the host and the number of earlier turns there for each turn
/// before the first unmatched one.
struct Placement {
    keys: Vec<SortKey>,
    turns: Vec<usize>,
    hosts: Vec<usize>,
    offsets: Vec<usize>,
}

impl Placement {
    /// Whether this is the placement of `peers` on `hosts` up to turn `t`.
    spec fn reaches(self, hosts: Seq<HostView>, peers: Seq<PeerView>, t: int) -> bool {
        &&& order::key_pairs(self.keys@) == peer_keys(peers)
        &&& order::positions(self.turns@) == turns(peers)
        &&& self.hosts@.len() == t
        &&& self.offsets@.len() == t
        &&& forall|s: int|
            0 <= s < t ==> #[trigger] self.hosts@[s] == host_of_turn(hosts, peers, s)
                && self.hosts@[s] < hosts.len()
        &&& forall|s: int|
            0 <= s < t ==> #[trigger] self.offsets@[s] == ports_taken(
                hosts,
                peers,
                host_of_turn(hosts, peers, s),
                s,
            )
    }
}

/// How many of the first `t` turns go to peers that require the same tags as peer `i`.
fn count_turns(
    keys: &Vec<SortKey>,
    order_of_turns: &Vec<usize>,
    i: usize,
    t: usize,
    Ghost(peers): Ghost<Seq<PeerView>>,
) -> (r: usize)
    requires
        order::key_pairs(keys@) == peer_keys(peers),
        order::positions(order_of_turns@) == turns(peers),
        i < peers.len(),
        t <= peers.len(),
    ensures
        r == turns_before(peers, required_tags(peers, i as int), t as int),
{
    let mut n: usize = 0;
    let mut s: usize = 0;
    proof {
        order::sorted_positions_are_a_permutation(peer_keys(peers));
    }
    while s < t
        invariant
            s <= t <= peers.len(),
            n <= s,
            i < peers.len(),
            order::key_pairs(keys@) == peer_keys(peers),
            order::positions(order_of_turns@) == turns(peers),
            turns(peers).len() == peers.len(),
            forall|p: int| 0 <= p < peers.len() ==> 0 <= #[trigger] turns(peers)[p] < peers.len(),
            n == turns_before(peers, required_tags(peers, i as int), s as int),
        decreases t - s,
    {
        let j = order_of_turns[s];
        proof {
            assert(turns(peers)[s as int] == order::positions(order_of_turns@)[s as int]);
            assert(order::key_pairs(keys@)[i as int] == peer_keys(peers)[i as int]);
            assert(order::key_pairs(keys@)[j as int] == peer_keys(peers)[j as int]);
        }
        if order::same_list(&keys[j].tags, &keys[i].tags) {
            n = n + 1;
        }
        s = s + 1;
    }
    n
}

/// How many of the turns so far went to host `h`.
fn count_ports(
    hosts_of_turns: &Vec<usize>,
    h: usize,
    Ghost(hosts): Ghost<Seq<HostView>>,
    Ghost(peers): Ghost<Seq<PeerView>>,
) -> (r: usize)
    requires
        forall|s: int|
            0 <= s < hosts_of_turns@.len() ==> #[trigger] hosts_of_turns@[s] == host_of_turn(
                hosts,
                peers,
                s,
            ),
    ensures
        r == ports_taken(hosts, peers, h as int, hosts_of_turns@.len() as int),
{
    let mut n: usize = 0;
    let mut s: usize = 0;
    while s < hosts_of_turns.len()
        invariant
            s <= hosts_of_turns@.len(),
            n <= s,
            forall|s: int|
                0 <= s < hosts_of_turns@.len() ==> #[trigger] hosts_of_turns@[s] == host_of_turn(
                    hosts,
                    peers,
                    s,
                ),
            n == ports_taken(hosts, peers, h as int, s as int),
        decreases hosts_of_turns@.len() - s,
    {
        assert(hosts_of_turns@[s as int] == host_of_turn(hosts, peers, s as int));
        if hosts_of_turns[s] == h {
            n = n + 1;
        }
        s = s + 1;
    }
    n
}

/// Places the peers turn by turn, up to the first turn whose peer no host can run.
fn place(config: &TestConfig) -> (r: Placement)
    ensures
        ({
            let hosts = config::hosts_view(config.hosts@);
            let peers = config::peers_view(config.peers@);
            r.reaches(hosts, peers, first_unmatched(hosts, peers, 0))
        }),
{
    let ghost hosts = config::hosts_view(config.hosts@);
    let ghost peers = config::peers_view(config.peers@);
    let keys = keys_of_peers(&config.peers);
    let order_of_turns = order::sort_positions(&keys);
    let mut p = Placement { keys, turns: order_of_turns, hosts: Vec::new(), offsets: Vec::new() };
    let mut t: usize = 0;
    proof {
        order::sorted_positions_are_a_permutation(peer_keys(peers));
        assert(order::key_pairs(p.keys@).len() == peers.len());
        assert(turns(peers).len() == peers.len());
    }
    while t < config.peers.len()
        invariant
            t <= config.peers@.len(),
            hosts == config::hosts_view(config.hosts@),
            peers == config::peers_view(config.peers@),
            turns(peers).len() == peers.len(),
            forall|q: int| 0 <= q < peers.len() ==> 0 <= #[trigger] turns(peers)[q] < peers.len(),
            p.reaches(hosts, peers, t as int),
            first_unmatched(hosts, peers, 0) == first_unmatched(hosts, peers, t as int),
        decreases config.peers@.len() - t,
    {
        assert(order::positions(p.turns@)[t as int] == turns(peers)[t as int]);
        let i = p.turns[t];
        let candidates = find_hosts(&config.hosts, &config.peers[i].runs_on);
        assert(peers[i as int] == config.peers@[i as int]@);
        assert(order::positions(candidates@) == hosts_for_turn(hosts, peers, t as int));
        if candidates.len() == 0 {
            assert(hosts_for_turn(hosts, peers, t as int).len() == 0);
            return p;
        }
        let rank = count_turns(&p.keys, &p.turns, i, t, Ghost(peers));
        let h = candidates[rank % candidates.len()];
        proof {
            let c = hosts_for_turn(hosts, peers, t as int);
            assert(c.len() == candidates@.len());
            assert(c[rank as int % c.len() as int] == order::positions(candidates@)[(rank
                % candidates@.len() as usize) as int]);
            assert(h == host_of_turn(hosts, peers, t as int));
        }
        let offset = count_ports(&p.hosts, h, Ghost(hosts), Ghost(peers));
        p.hosts.push(h);
        p.offsets.push(offset);
        t = t + 1;
    }
    p
}

/// Whether all peers that can be placed get a port below 2^16.
pub fn ports_fit(config: &TestConfig) -> (r: bool)
    ensures
        r == ports_in_range(
            config::hosts_view(config.hosts@),
            config::peers_view(config.peers@),
        ),
{
    let ghost hosts = config::hosts_view(config.hosts@);
    let ghost peers = config::peers_view(config.peers@);
    let p = place(config);
    let mut t: usize = 0;
    while t < p.hosts.len()
        invariant
            t <= p.hosts@.len(),
            hosts == config::hosts_view(config.hosts@),
            peers == config::peers_view(config.peers@),
            p.reaches(hosts, peers, first_unmatched(hosts, peers, 0)),
            forall|s: int|
                0 <= s < t ==> #[trigger] port_of_turn(hosts, peers, s) <= u16::MAX && ports_taken(
                    hosts,
                    peers,
                    host_of_turn(hosts, peers, s),
                    s,
                ) < u16::MAX,
        decreases p.hosts@.len() - t,
    {
        assert(p.hosts@[t as int] == host_of_turn(hosts, peers, t as int));
        assert(p.offsets@[t as int] == ports_taken(
            hosts,
            peers,
            host_of_turn(hosts, peers, t as int),
            t as int,
        ));
        let base = config.hosts[p.hosts[t]].base_port;
        assert(base == hosts[host_of_turn(hosts, peers, t as int)].base_port);
        if p.offsets[t] >= 65535 || p.offsets[t] > 65535 - base as usize {
            proof {
                if ports_in_range(hosts, peers) {
                    let turn = t as int;
                    assert(0 <= turn < first_unmatched(hosts, peers, 0));
                    assert(port_of_turn(hosts, peers, turn) <= u16::MAX);
                    assert(ports_taken(hosts, peers, host_of_turn(hosts, peers, turn), turn)
                        < u16::MAX);
                    assert(false);
                }
            }
            return false;
        }
        proof {
            let here = host_of_turn(hosts, peers, t as int);
            assert(ports_taken(hosts, peers, here, t as int) < u16::MAX);
            assert(port_of_turn(hosts, peers, t as int) <= u16::MAX);
            assert forall|s: int| 0 <= s < t + 1 implies #[trigger] port_of_turn(hosts, peers, s)
                <= u16::MAX && ports_taken(hosts, peers, host_of_turn(hosts, peers, s), s)
                < u16::MAX by {
                if s < t {
                    assert(port_of_turn(hosts, peers, s) <= u16::MAX);
                } else {
                    assert(s == t);
                }
            }
        }
        t = t + 1;
    }
    true
}

/// The rows of a list as strings.
fn row_strings(list: &Vec<Vec<char>>) -> (r: Vec<String>)
    ensures
        text::texts(r@) == order::rows(list@),
{
    let mut out: Vec<String> = Vec::new();
    let mut i: usize = 0;
    while i < list.len()
        invariant
            i <= list@.len(),
            text::texts(out@) == order::rows(list@).take(i as int),
        decreases list@.len() - i,
    {
        let ghost before = out@;
        let row = text::substring(&list[i], 0, list[i].len());
        let ghost entry = row@;
        assert(entry =~= order::rows(list@)[i as int]);
        out.push(row);
        assert(text::texts(out@) =~= text::texts(before).push(entry));
        i = i + 1;
    }
    assert(order::rows(list@).take(list@.len() as int) =~= order::rows(list@));
    out
}

/// The names, in order of turns, of the peers that require the same tags as peer `i`.
fn names_like(
    config: &TestConfig,
    p: &Placement,
    i: usize,
    Ghost(peers): Ghost<Seq<PeerView>>,
) -> (r: Vec<String>)
    requires
        peers == config::peers_view(config.peers@),
        order::key_pairs(p.keys@) == peer_keys(peers),
        order::positions(p.turns@) == turns(peers),
        i < peers.len(),
    ensures
        text::texts(r@) == names_requiring(
            peers,
            required_tags(peers, i as int),
            peers.len() as int,
        ),
{
    let mut names: Vec<String> = Vec::new();
    let mut s: usize = 0;
    let ghost tags = required_tags(peers, i as int);
    proof {
        order::sorted_positions_are_a_permutation(peer_keys(peers));
        assert(text::texts(names@) =~= names_requiring(peers, tags, 0));
    }
    while s < config.peers.len()
        invariant
            s <= peers.len(),
            i < peers.len(),
            peers == config::peers_view(config.peers@),
            tags == required_tags(peers, i as int),
            order::key_pairs(p.keys@) == peer_keys(peers),
            order::positions(p.turns@) == turns(peers),
            turns(peers).len() == peers.len(),
            forall|q: int| 0 <= q < peers.len() ==> 0 <= #[trigger] turns(peers)[q] < peers.len(),
            text::texts(names@) == names_requiring(peers, tags, s as int),
        decreases peers.len() - s,
    {
        let ghost before = names@;
        assert(order::positions(p.turns@)[s as int] == turns(peers)[s as int]);
        let j = p.turns[s];
        proof {
            assert(order::key_pairs(p.keys@)[i as int] == peer_keys(peers)[i as int]);
            assert(order::key_pairs(p.keys@)[j as int] == peer_keys(peers)[j as int]);
        }
        if order::same_list(&p.keys[j].tags, &p.keys[i].tags) {
            let name = config.peers[j].name.as_str().to_owned();
            let ghost whole = name@;
            names.push(name);
            assert(whole == peers[j as int].name);
            assert(text::texts(names@) =~= text::texts(before).push(whole));
        }
        s = s + 1;
    }
    names
}

proof fn requiring_names_are_listed(peers: Seq<PeerView>, tags: Seq<Seq<char>>, t: int, s: int)
    requires
        0 <= s < t,
        required_tags(peers, turns(peers)[s]) == tags,
    ensures
        names_requiring(peers, tags, t).contains(peers[turns(peers)[s]].name),
    decreases t,
{
    let names = names_requiring(peers, tags, t);
    let name = peers[turns(peers)[s]].name;
    if s == t - 1 {
        assert(names[names.len() - 1] == name);
    } else {
        requiring_names_are_listed(peers, tags, t - 1, s);
        let front = names_requiring(peers, tags, t - 1);
        let k = choose|k: int| 0 <= k < front.len() && front[k] == name;
        assert(names[k] == name);
    }
}

/// Where it is known how plain ASCII is shown, the message names the tags and the peers.
proof fn tags_and_peers_are_named(peers: Seq<PeerView>, tags: Seq<Seq<char>>)
    ensures
        show::plain_are_known(tags) ==> names_tags_and_peers(
            no_host_message(peers, tags),
            peers,
            tags,
        ),
{
    let message = no_host_message(peers, tags);
    let shown = show::debug_list(tags);
    let names = names_requiring(peers, tags, peers.len() as int);
    let listed = text::joined(names, ", "@);
    let tail = " required by peer(s): "@ + listed;
    let head = "no host matches tags "@ + shown + " required by peer(s): "@;
    text::parts_occur("no host matches tags "@, shown, tail);
    assert("no host matches tags "@ + shown + tail =~= message);
    text::parts_occur(head, listed, Seq::empty());
    assert(head + listed + Seq::<char>::empty() =~= message);
    if show::plain_are_known(tags) {
        assert forall|k: int| 0 <= k < tags.len() && outside::is_plain(
            #[trigger] tags[k],
        ) implies text::occurs(tags[k], message) by {
            show::listed_texts_occur(tags, k);
            text::occurrences_nest(tags[k], shown, message);
        }
    }
    order::sorted_positions_are_a_permutation(peer_keys(peers));
    assert forall|i: int| 0 <= i < peers.len() && required_tags(peers, i) == tags implies text::occurs(
        (#[trigger] peers[i]).name,
        message,
    ) by {
        assert(turns(peers).contains(i));
        let s = choose|s: int| 0 <= s < turns(peers).len() && turns(peers)[s] == i;
        requiring_names_are_listed(peers, tags, peers.len() as int, s);
        let k = choose|k: int| 0 <= k < names.len() && names[k] == peers[i].name;
        text::joined_texts_occur(names, ", "@, k);
        text::occurrences_nest(peers[i].name, listed, message);
    }
}

/// The message for peers that no host can run, with their tags as they are shown.
pub fn no_host_text(shown_tags: &str, names: &Vec<String>) -> (r: String)
    ensures
        r@ == "no host matches tags "@ + shown_tags@ + " required by peer(s): "@ + text::joined(
            text::texts(names@),
            ", "@,
        ),
{
    let mut out = "no host matches tags ".to_owned();
    out.push_str(shown_tags);
    out.push_str(" required by peer(s): ");
    out.push_str(text::join(names, ", ").as_str());
    out
}

/// The message for the peers that no host can run, one of which is peer `i`.
fn explain_no_host(
    config: &TestConfig,
    p: &Placement,
    i: usize,
    Ghost(peers): Ghost<Seq<PeerView>>,
) -> (r: String)
    requires
        peers == config::peers_view(config.peers@),
        order::key_pairs(p.keys@) == peer_keys(peers),
        order::positions(p.turns@) == turns(peers),
        i < peers.len(),
    ensures
        r@ == no_host_message(peers, required_tags(peers, i as int)),
        show::plain_are_known(required_tags(peers, i as int)),
        names_tags_and_peers(r@, peers, required_tags(peers, i as int)),
{
    assert(order::key_pairs(p.keys@)[i as int] == peer_keys(peers)[i as int]);
    assert(order::key_pairs(p.keys@).len() == peers.len());
    let names = names_like(config, p, i, Ghost(peers));
    let tags = show::show_list(&row_strings(&p.keys[i].tags));
    proof {
        tags_and_peers_are_named(peers, required_tags(peers, i as int));
    }
    no_host_text(tags.as_str(), &names)
}

/// The address at which a peer listens.
fn listen_on(port: u16) -> (r: String)
    ensures
        r@ == listen_address(port as int),
{
    let mut out = "/ip4/0.0.0.0/udp/".to_owned();
    out.push_str(text::decimal_of(port as u128).as_str());
    out.push_str("/quic-v1");
    out
}

/// The environment of a peer: its own entries count before the common ones.
fn layer(common: &TextMap<String>, own: &TextMap<String>) -> (r: TextMap<String>)
    ensures
        config::text_values(r@) == config::text_values(common@).union_prefer_right(
            config::text_values(own@),
        ),
{
    let mut env = common.clone();
    env.extend(own);
    assert(config::text_values(env@) =~= config::text_values(common@).union_prefer_right(
        config::text_values(own@),
    ));
    env
}

/// The turns in the order of the names of their peers.
fn order_of_report(
    config: &TestConfig,
    order_of_turns: &Vec<usize>,
    Ghost(peers): Ghost<Seq<PeerView>>,
) -> (r: Vec<usize>)
    requires
        peers == config::peers_view(config.peers@),
        order::positions(order_of_turns@) == turns(peers),
    ensures
        order::positions(r@) == report_order(peers),
{
    let mut keys: Vec<SortKey> = Vec::new();
    let mut t: usize = 0;
    proof {
        order::sorted_positions_are_a_permutation(peer_keys(peers));
    }
    assert(order::key_pairs(keys@) =~= name_keys(peers).take(0));
    while t < config.peers.len()
        invariant
            t <= peers.len(),
            peers == config::peers_view(config.peers@),
            order::positions(order_of_turns@) == turns(peers),
            turns(peers).len() == peers.len(),
            forall|q: int| 0 <= q < peers.len() ==> 0 <= #[trigger] turns(peers)[q] < peers.len(),
            order::key_pairs(keys@) == name_keys(peers).take(t as int),
        decreases peers.len() - t,
    {
        let ghost before = keys@;
        assert(order::positions(order_of_turns@)[t as int] == turns(peers)[t as int]);
        let i = order_of_turns[t];
        let key = SortKey {
            tags: Vec::new(),
            name: text::chars_of(config.peers[i].name.as_str()),
        };
        let ghost pair = (order::rows(key.tags@), key.name@);
        keys.push(key);
        assert(pair.0 =~= Seq::empty());
        assert(pair == name_keys(peers)[t as int]);
        assert(order::key_pairs(keys@) =~= order::key_pairs(before).push(pair));
        t = t + 1;
    }
    assert(name_keys(peers).take(peers.len() as int) =~= name_keys(peers));
    order::sort_positions(&keys)
}

/// Assigns each peer a host and a port.
///
/// Peers run only on hosts that carry all of the tags that they require; a peer that requires none
/// can run on any host. Where no host carries the tags of some peer, the message names those tags
/// and the peers that require them.
pub fn assign_peers(config: &TestConfig) -> (r: Result<Vec<PeerAssignment>, String>)
    requires
        ports_in_range(config::hosts_view(config.hosts@), config::peers_view(config.peers@)),
    ensures
        ({
            let hosts = config::hosts_view(config.hosts@);
            let peers = config::peers_view(config.peers@);
            let common = config::text_values(config.peer_environment@);
            let unmatched = first_unmatched(hosts, peers, 0);
            match r {
                Ok(list) => unmatched == peers.len() && config::assignments_view(list@)
                    == assignments(hosts, peers, common),
                Err(message) => {
                    let tags = required_tags(peers, turns(peers)[unmatched]);
                    &&& unmatched < peers.len()
                    &&& message@ == no_host_message(peers, tags)
                    &&& show::plain_are_known(tags)
                    &&& names_tags_and_peers(message@, peers, tags)
                },
            }
        }),
{
    let ghost hosts = config::hosts_view(config.hosts@);
    let ghost peers = config::peers_view(config.peers@);
    let ghost common = config::text_values(config.peer_environment@);
    let p = place(config);
    proof {
        order::sorted_positions_are_a_permutation(peer_keys(peers));
        order::sorted_positions_are_a_permutation(name_keys(peers));
        first_unmatched_is_a_turn(hosts, peers, 0);
    }
    if p.hosts.len() < config.peers.len() {
        let t = p.hosts.len();
        assert(order::positions(p.turns@)[t as int] == turns(peers)[t as int]);
        return Err(explain_no_host(config, &p, p.turns[t], Ghost(peers)));
    }
    let report = order_of_report(config, &p.turns, Ghost(peers));
    let mut out: Vec<PeerAssignment> = Vec::new();
    let mut k: usize = 0;
    assert(config::assignments_view(out@) =~= assignments(hosts, peers, common).take(0));
    while k < report.len()
        invariant
            k <= report@.len(),
            report@.len() == peers.len(),
            hosts == config::hosts_view(config.hosts@),
            peers == config::peers_view(config.peers@),
            common == config::text_values(config.peer_environment@),
            ports_in_range(hosts, peers),
            first_unmatched(hosts, peers, 0) == peers.len(),
            p.reaches(hosts, peers, peers.len() as int),
            order::positions(report@) == report_order(peers),
            turns(peers).len() == peers.len(),
            forall|q: int| 0 <= q < peers.len() ==> 0 <= #[trigger] turns(peers)[q] < peers.len(),
            report_order(peers).len() == peers.len(),
            forall|q: int|
                0 <= q < peers.len() ==> 0 <= #[trigger] report_order(peers)[q] < peers.len(),
            config::assignments_view(out@) == assignments(hosts, peers, common).take(k as int),
        decreases report@.len() - k,
    {
        let ghost before = out@;
        assert(order::positions(report@)[k as int] == report_order(peers)[k as int]);
        let t = report[k];
        assert(order::positions(p.turns@)[t as int] == turns(peers)[t as int]);
        let peer = &config.peers[p.turns[t]];
        assert(p.hosts@[t as int] == host_of_turn(hosts, peers, t as int));
        assert(p.offsets@[t as int] == ports_taken(
            hosts,
            peers,
            host_of_turn(hosts, peers, t as int),
            t as int,
        ));
        let host = &config.hosts[p.hosts[t]];
        assert(host@ == hosts[host_of_turn(hosts, peers, t as int)]);
        assert(port_of_turn(hosts, peers, t as int) <= u16::MAX);
        let port: u16 = host.base_port + p.offsets[t] as u16;
        let assignment = PeerAssignment {
            peer_name: peer.name.clone(),
            host: host.clone(),
            port,
            listen_addr: listen_on(port),
            extra_env: layer(&config.peer_environment, &peer.environment),
            docker_image: peer.image.clone(),
        };
        assert(peer@ == peers[turns(peers)[t as int]]);
        assert(assignment@ == assignment_of_turn(hosts, peers, common, t as int));
        let ghost entry = assignment@;
        out.push(assignment);
        assert(config::assignments_view(out@) =~= config::assignments_view(before).push(entry));
        k = k + 1;
    }
    assert(assignments(hosts, peers, common).take(peers.len() as int) =~= assignments(
        hosts,
        peers,
        common,
    ));
    Ok(out)
}

// ---------------------------------------------------------------------------------------------
// What holds of every assignment
// ---------------------------------------------------------------------------------------------
/// The first unmatched turn is one that no host matches, and all turns before it are matched.
proof fn first_unmatched_is_a_turn(hosts: Seq<HostView>, peers: Seq<PeerView>, t: int)
    requires
        0 <= t <= peers.len(),
    ensures
        t <= first_unmatched(hosts, peers, t) <= peers.len(),
        forall|s: int|
            t <= s < first_unmatched(hosts, peers, t) ==> (#[trigger] hosts_for_turn(
                hosts,
                peers,
                s,
            )).len() > 0,
        first_unmatched(hosts, peers, t) < peers.len() ==> hosts_for_turn(
            hosts,
            peers,
            first_unmatched(hosts, peers, t),
        ).len() == 0,
    decreases peers.len() - t,
{
    if t < peers.len() && hosts_for_turn(hosts, peers, t).len() > 0 {
        first_unmatched_is_a_turn(hosts, peers, t + 1);
    }
}

/// The matching hosts are exactly the hosts that carry the tags, each once.
pub proof fn matching_hosts_carry_the_tags(hosts: Seq<HostView>, tags: Seq<Seq<char>>)
    ensures
        matching_hosts(hosts, tags).no_duplicates(),
        forall|h: int|
            #[trigger] matching_hosts(hosts, tags).contains(h) <==> 0 <= h < hosts.len() && carries(
                hosts[h],
                tags,
            ),
{
    let all = Seq::new(hosts.len(), |h: int| h);
    let fits = |h: int| carries(hosts[h], tags);
    let found = matching_hosts(hosts, tags);
    broadcast use vstd::seq_lib::group_filter_ensures;

    assert forall|h: int| #[trigger] found.contains(h) implies 0 <= h < hosts.len() && carries(
        hosts[h],
        tags,
    ) by {
        let k = choose|k: int| 0 <= k < found.len() && found[k] == h;
        assert(fits(found[k]));
        all.lemma_filter_contains_rev(fits, h);
    }
    assert forall|h: int| 0 <= h < hosts.len() && carries(
        hosts[h],
        tags,
    ) implies #[trigger] found.contains(h) by {
        assert(all[h] == h);
        assert(fits(all[h]));
        all.lemma_filter_contains(fits, h);
    }
    filtered_rows_stay_apart(all, fits);
}

proof fn filtered_rows_stay_apart(all: Seq<int>, fits: spec_fn(int) -> bool)
    requires
        forall|k: int| 0 <= k < all.len() ==> #[trigger] all[k] == k,
    ensures
        all.filter(fits).no_duplicates(),
        forall|k: int|
            0 <= k < all.filter(fits).len() ==> 0 <= #[trigger] all.filter(fits)[k] < all.len(),
    decreases all.len(),
{
    reveal(Seq::filter);
    if all.len() > 0 {
        filtered_rows_stay_apart(all.drop_last(), fits);
    }
}

/// Every peer runs on a configured host that carries all of the tags that the peer requires.
pub proof fn peers_run_on_hosts_with_their_tags(
    hosts: Seq<HostView>,
    peers: Seq<PeerView>,
    t: int,
)
    requires
        0 <= t < first_unmatched(hosts, peers, 0),
    ensures
        0 <= host_of_turn(hosts, peers, t) < hosts.len(),
        carries(hosts[host_of_turn(hosts, peers, t)], peers[turns(peers)[t]].runs_on),
{
    first_unmatched_is_a_turn(hosts, peers, 0);
    let i = turns(peers)[t];
    let tags = required_tags(peers, i);
    let candidates = hosts_for_turn(hosts, peers, t);
    assert(candidates.len() > 0);
    matching_hosts_carry_the_tags(hosts, tags);
    turns_before_is_a_count(peers, tags, t);
    let rank = turns_before(peers, tags, t);
    vstd::arithmetic::div_mod::lemma_mod_bound(rank, candidates.len() as int);
    assert(candidates.contains(host_of_turn(hosts, peers, t)));
    carries_in_any_order(hosts[host_of_turn(hosts, peers, t)], peers[i].runs_on);
}

proof fn turns_before_is_a_count(peers: Seq<PeerView>, tags: Seq<Seq<char>>, t: int)
    requires
        0 <= t,
    ensures
        0 <= turns_before(peers, tags, t) <= t,
    decreases t,
{
    if t > 0 {
        turns_before_is_a_count(peers, tags, t - 1);
    }
}

/// Assigning fails if and only if there is a peer whose tags no host carries.
pub proof fn assigning_fails_only_without_a_host(hosts: Seq<HostView>, peers: Seq<PeerView>)
    ensures
        first_unmatched(hosts, peers, 0) < peers.len() <==> exists|i: int|
            0 <= i < peers.len() && forall|h: int|
                0 <= h < hosts.len() ==> !carries(
                    #[trigger] hosts[h],
                    (#[trigger] peers[i]).runs_on,
                ),
{
    first_unmatched_is_a_turn(hosts, peers, 0);
    order::sorted_positions_are_a_permutation(peer_keys(peers));
    let unmatched = first_unmatched(hosts, peers, 0);
    if unmatched < peers.len() {
        let i = turns(peers)[unmatched];
        assert(0 <= i < peers.len());
        matching_hosts_carry_the_tags(hosts, required_tags(peers, i));
        assert forall|h: int| 0 <= h < hosts.len() implies !carries(
            #[trigger] hosts[h],
            peers[i].runs_on,
        ) by {
            carries_in_any_order(hosts[h], peers[i].runs_on);
            assert(!matching_hosts(hosts, required_tags(peers, i)).contains(h));
        }
        assert(peers[i].runs_on == peers[i].runs_on);
    }
    if exists|i: int|
        0 <= i < peers.len() && forall|h: int|
            0 <= h < hosts.len() ==> !carries(#[trigger] hosts[h], (#[trigger] peers[i]).runs_on) {
        let i = choose|i: int|
            0 <= i < peers.len() && forall|h: int|
                0 <= h < hosts.len() ==> !carries(
                    #[trigger] hosts[h],
                    (#[trigger] peers[i]).runs_on,
                );
        assert(turns(peers).contains(i));
        let t = choose|t: int| 0 <= t < turns(peers).len() && turns(peers)[t] == i;
        if t < unmatched {
            peers_run_on_hosts_with_their_tags(hosts, peers, t);
        }
    }
}

proof fn ports_taken_grows(hosts: Seq<HostView>, peers: Seq<PeerView>, h: int, s: int, t: int)
    requires
        0 <= s <= t,
    ensures
        0 <= ports_taken(hosts, peers, h, s) <= ports_taken(hosts, peers, h, t),
        s < t && host_of_turn(hosts, peers, s) == h ==> ports_taken(hosts, peers, h, s)
            < ports_taken(hosts, peers, h, t),
    decreases t,
{
    if s < t {
        ports_taken_grows(hosts, peers, h, s, t - 1);
    } else if t > 0 {
        ports_taken_grows(hosts, peers, h, s - 1, t - 1);
    }
}

/// No two peers share a host and a port: on one host a later turn has a higher port, and no port
/// lies below the base port of its host.
pub proof fn ports_on_a_host_differ(hosts: Seq<HostView>, peers: Seq<PeerView>, s: int, t: int)
    requires
        0 <= s < t,
        host_of_turn(hosts, peers, s) == host_of_turn(hosts, peers, t),
    ensures
        hosts[host_of_turn(hosts, peers, s)].base_port <= port_of_turn(hosts, peers, s),
        port_of_turn(hosts, peers, s) < port_of_turn(hosts, peers, t),
{
    ports_taken_grows(hosts, peers, host_of_turn(hosts, peers, s), s, t);
}

/// Two assignments in the report that name the same configured host name different ports.
pub proof fn reported_addresses_differ(
    hosts: Seq<HostView>,
    peers: Seq<PeerView>,
    common: Map<Seq<char>, Seq<char>>,
    k: int,
    m: int,
)
    requires
        0 <= k < peers.len(),
        0 <= m < peers.len(),
        k != m,
        first_unmatched(hosts, peers, 0) == peers.len(),
        ports_in_range(hosts, peers),
        host_of_turn(hosts, peers, report_order(peers)[k]) == host_of_turn(
            hosts,
            peers,
            report_order(peers)[m],
        ),
    ensures
        assignments(hosts, peers, common)[k].port != assignments(hosts, peers, common)[m].port,
{
    order::sorted_positions_are_a_permutation(name_keys(peers));
    let s = report_order(peers)[k];
    let t = report_order(peers)[m];
    assert(s != t);
    if s < t {
        ports_on_a_host_differ(hosts, peers, s, t);
    } else {
        ports_on_a_host_differ(hosts, peers, t, s);
    }
    ports_taken_grows(hosts, peers, host_of_turn(hosts, peers, s), s, s);
    ports_taken_grows(hosts, peers, host_of_turn(hosts, peers, t), t, t);
    assert(port_of_turn(hosts, peers, s) <= u16::MAX);
    assert(port_of_turn(hosts, peers, t) <= u16::MAX);
}

/// The peers in the order in which they are reported.
pub open spec fn reported_peers(peers: Seq<PeerView>) -> Seq<int> {
    Seq::new(peers.len(), |k: int| turns(peers)[report_order(peers)[k]])
}

/// Every peer has exactly one place in the report.
pub proof fn every_peer_is_assigned_once(peers: Seq<PeerView>)
    ensures
        reported_peers(peers).no_duplicates(),
        forall|i: int| #[trigger] reported_peers(peers).contains(i) <==> 0 <= i < peers.len(),
{
    order::sorted_positions_are_a_permutation(peer_keys(peers));
    order::sorted_positions_are_a_permutation(name_keys(peers));
    let reported = reported_peers(peers);
    assert forall|k: int| 0 <= k < peers.len() implies 0 <= #[trigger] reported[k]
        < peers.len() by {
        assert(0 <= report_order(peers)[k] < peers.len());
    }
    assert forall|i: int| 0 <= i < peers.len() implies #[trigger] reported.contains(i) by {
        assert(turns(peers).contains(i));
        let t = choose|t: int| 0 <= t < turns(peers).len() && turns(peers)[t] == i;
        assert(report_order(peers).contains(t));
        let k = choose|k: int| 0 <= k < report_order(peers).len() && report_order(peers)[k] == t;
        assert(reported[k] == i);
    }
}

/// The report is sorted by the names of the peers.
pub proof fn report_is_sorted_by_name(
    hosts: Seq<HostView>,
    peers: Seq<PeerView>,
    common: Map<Seq<char>, Seq<char>>,
    k: int,
    m: int,
)
    requires
        0 <= k <= m < peers.len(),
    ensures
        text::text_le(
            assignments(hosts, peers, common)[k].peer_name,
            assignments(hosts, peers, common)[m].peer_name,
        ),
{
    order::sorted_positions_are_a_permutation(name_keys(peers));
    let a = report_order(peers)[k];
    let b = report_order(peers)[m];
    assert(order::position_le(name_keys(peers), a, b));
    assert(!text::list_lt(name_keys(peers)[a].0, name_keys(peers)[b].0)) by {
        text::list_order_is_total(name_keys(peers)[a].0, name_keys(peers)[b].0);
    }
}

/// A peer's own entries count before the common ones, which count where it has none.
pub proof fn own_environment_counts_first(
    hosts: Seq<HostView>,
    peers: Seq<PeerView>,
    common: Map<Seq<char>, Seq<char>>,
    t: int,
    key: Seq<char>,
)
    ensures
        ({
            let own = peers[turns(peers)[t]].environment;
            let env = assignment_of_turn(hosts, peers, common, t).extra_env;
            &&& env.contains_key(key) <==> own.contains_key(key) || common.contains_key(key)
            &&& own.contains_key(key) ==> env[key] == own[key]
            &&& !own.contains_key(key) && common.contains_key(key) ==> env[key] == common[key]
        }),
{
}

/// How many of the first `t` turns go to peers that require `tags` and run on host `h`.
pub open spec fn turns_on_host(
    hosts: Seq<HostView>,
    peers: Seq<PeerView>,
    tags: Seq<Seq<char>>,
    h: int,
    t: int,
) -> int
    decreases t,
{
    if t <= 0 {
        0
    } else {
        turns_on_host(hosts, peers, tags, h, t - 1) + if required_tags(peers, turns(peers)[t - 1])
            == tags && host_of_turn(hosts, peers, t - 1) == h {
            1int
        } else {
            0int
        }
    }
}

/// The peers that require the same tags are spread evenly: after `n` of them each of the matching
/// hosts has `n` divided by their number, and the first of them one more each for the remainder.
pub proof fn peers_are_spread_evenly(
    hosts: Seq<HostView>,
    peers: Seq<PeerView>,
    tags: Seq<Seq<char>>,
    c: int,
    t: int,
)
    requires
        0 <= t,
        0 <= c < matching_hosts(hosts, tags).len(),
    ensures
        ({
            let candidates = matching_hosts(hosts, tags);
            let n = turns_before(peers, tags, t);
            turns_on_host(hosts, peers, tags, candidates[c], t) == n / (candidates.len() as int)
                + if c < n % (candidates.len() as int) {
                1int
            } else {
                0int
            }
        }),
    decreases t,
{
    let candidates = matching_hosts(hosts, tags);
    let len = candidates.len() as int;
    if t <= 0 {
        assert(0int / len == 0) by (nonlinear_arith)
            requires
                len > 0,
        ;
        assert(0int % len == 0) by (nonlinear_arith)
            requires
                len > 0,
        ;
    } else {
        peers_are_spread_evenly(hosts, peers, tags, c, t - 1);
        if required_tags(peers, turns(peers)[t - 1]) == tags {
            let n = turns_before(peers, tags, t - 1);
            turns_before_is_a_count(peers, tags, t - 1);
            let q = n / len;
            let r = n % len;
            vstd::arithmetic::div_mod::lemma_fundamental_div_mod(n, len);
            vstd::arithmetic::div_mod::lemma_mod_bound(n, len);
            if r + 1 < len {
                assert(n + 1 == q * len + (r + 1)) by (nonlinear_arith)
                    requires
                        n == len * q + r,
                ;
                vstd::arithmetic::div_mod::lemma_fundamental_div_mod_converse(
                    n + 1,
                    len,
                    q,
                    r + 1,
                );
            } else {
                assert(n + 1 == (q + 1) * len) by (nonlinear_arith)
                    requires
                        n == len * q + r,
                        r + 1 == len,
                ;
                vstd::arithmetic::div_mod::lemma_fundamental_div_mod_converse(
                    n + 1,
                    len,
                    q + 1,
                    0,
                );
            }
            matching_hosts_carry_the_tags(hosts, tags);
            assert(host_of_turn(hosts, peers, t - 1) == candidates[r]);
            assert(candidates[r] == candidates[c] <==> r == c);
        }
    }
}

// ---------------------------------------------------------------------------------------------
// The order of the configuration makes no difference
// ---------------------------------------------------------------------------------------------
/// Whether no two peers have the same name.
pub open spec fn names_differ(peers: Seq<PeerView>) -> bool {
    forall|i: int, j: int|
        0 <= i < j < peers.len() ==> (#[trigger] peers[i]).name != (#[trigger] peers[j]).name
}

/// Whether two peers are the same but for the order of their tags and whom they bootstrap from.
pub open spec fn is_same_peer(a: PeerView, b: PeerView) -> bool {
    &&& a.name == b.name
    &&& a.image == b.image
    &&& a.environment == b.environment
    &&& a.runs_on.to_multiset() == b.runs_on.to_multiset()
}

/// Whether every one of the peers is among the others, but for the order of its tags and whom it
/// bootstraps from.
pub open spec fn are_among(peers: Seq<PeerView>, others: Seq<PeerView>) -> bool {
    forall|i: int| #![trigger peers[i]]
        0 <= i < peers.len() ==> exists|j: int| #![trigger others[j]]
            0 <= j < others.len() && is_same_peer(peers[i], others[j])
}

/// A peer as far as its assignment depends on it.
spec fn assigned_part(peer: PeerView) -> PeerView {
    PeerView {
        name: peer.name,
        image: peer.image,
        bootstrap: Seq::empty(),
        environment: peer.environment,
        runs_on: order::sorted_texts(peer.runs_on),
    }
}

/// The peers as far as their assignment depends on them.
spec fn assigned_parts(peers: Seq<PeerView>) -> Seq<PeerView> {
    Seq::new(peers.len(), |i: int| assigned_part(peers[i]))
}

proof fn same_peers_have_the_same_part(a: PeerView, b: PeerView)
    requires
        is_same_peer(a, b),
    ensures
        assigned_part(a) == assigned_part(b),
{
    order::sorted_texts_forget_the_order(a.runs_on, b.runs_on);
}

proof fn parts_are_among(peers: Seq<PeerView>, others: Seq<PeerView>, x: PeerView)
    requires
        are_among(peers, others),
        assigned_parts(peers).contains(x),
    ensures
        assigned_parts(others).contains(x),
{
    let i = choose|i: int| 0 <= i < assigned_parts(peers).len() && assigned_parts(peers)[i] == x;
    assert(assigned_part(peers[i]) == x);
    let j = choose|j: int| #![trigger others[j]]
        0 <= j < others.len() && is_same_peer(peers[i], others[j]);
    same_peers_have_the_same_part(peers[i], others[j]);
    assert(assigned_parts(others)[j] == x);
}

/// The peers in the order of their turns, as far as their assignment depends on them.
spec fn peers_by_turn(peers: Seq<PeerView>) -> Seq<PeerView> {
    Seq::new(peers.len(), |t: int| assigned_part(peers[turns(peers)[t]]))
}

/// Whether peer `a` comes strictly before peer `b`, where their tags are sorted.
spec fn peer_lt(a: PeerView, b: PeerView) -> bool {
    let (x, y) = (a.runs_on, b.runs_on);
    text::list_lt(x, y) || (x == y && text::text_lt(a.name, b.name))
}

proof fn peer_lt_is_strict(a: PeerView, b: PeerView, c: PeerView)
    ensures
        !peer_lt(a, a),
        peer_lt(a, b) && peer_lt(b, c) ==> peer_lt(a, c),
{
    let (x, y, z) = (a.runs_on, b.runs_on, c.runs_on);
    text::list_order_is_total(x, x);
    text::text_order_is_total(a.name, a.name);
    if text::list_lt(x, y) && text::list_lt(y, z) {
        text::list_order_is_transitive(x, y, z);
    }
    if text::text_lt(a.name, b.name) && text::text_lt(b.name, c.name) {
        text::text_order_is_transitive(a.name, b.name, c.name);
    }
}

/// Two rows of the same peers, each in strict order, are the same row.
proof fn strict_rows_agree(a: Seq<PeerView>, b: Seq<PeerView>)
    requires
        forall|i: int, j: int|
            0 <= i < j < a.len() ==> peer_lt(#[trigger] a[i], #[trigger] a[j]),
        forall|i: int, j: int|
            0 <= i < j < b.len() ==> peer_lt(#[trigger] b[i], #[trigger] b[j]),
        forall|x: PeerView| a.contains(x) <==> b.contains(x),
    ensures
        a == b,
    decreases a.len(),
{
    if a.len() == 0 {
        if b.len() > 0 {
            assert(b.contains(b[0]));
            assert(a.contains(b[0]));
        }
        assert(a =~= b);
    } else {
        assert(a.contains(a[0]));
        assert(b.contains(a[0]));
        let k = choose|k: int| 0 <= k < b.len() && b[k] == a[0];
        assert(b.contains(b[0]));
        assert(a.contains(b[0]));
        let m = choose|m: int| 0 <= m < a.len() && a[m] == b[0];
        peer_lt_is_strict(a[0], b[0], a[0]);
        if k > 0 {
            assert(peer_lt(b[0], b[k]));
            if m > 0 {
                assert(peer_lt(a[0], a[m]));
            }
        }
        assert(a[0] == b[0]);
        let (c, d) = (a.drop_first(), b.drop_first());
        assert forall|x: PeerView| c.contains(x) <==> d.contains(x) by {
            peer_lt_is_strict(a[0], a[0], a[0]);
            if c.contains(x) {
                let i = choose|i: int| 0 <= i < c.len() && c[i] == x;
                assert(peer_lt(a[0], a[i + 1]));
                assert(a[i + 1] == x);
                assert(a.contains(x));
                assert(b.contains(x));
                let j = choose|j: int| 0 <= j < b.len() && b[j] == x;
                assert(d[j - 1] == x);
            }
            if d.contains(x) {
                let i = choose|i: int| 0 <= i < d.len() && d[i] == x;
                assert(peer_lt(b[0], b[i + 1]));
                assert(b[i + 1] == x);
                assert(b.contains(x));
                assert(a.contains(x));
                let j = choose|j: int| 0 <= j < a.len() && a[j] == x;
                assert(c[j - 1] == x);
            }
        }
        assert forall|i: int, j: int| 0 <= i < j < c.len() implies peer_lt(
            #[trigger] c[i],
            #[trigger] c[j],
        ) by {
            assert(peer_lt(a[i + 1], a[j + 1]));
        }
        assert forall|i: int, j: int| 0 <= i < j < d.len() implies peer_lt(
            #[trigger] d[i],
            #[trigger] d[j],
        ) by {
            assert(peer_lt(b[i + 1], b[j + 1]));
        }
        strict_rows_agree(c, d);
        assert(a =~= seq![a[0]] + c);
        assert(b =~= seq![b[0]] + d);
    }
}

proof fn peers_by_turn_are_in_strict_order(peers: Seq<PeerView>)
    requires
        names_differ(peers),
    ensures
        forall|s: int, t: int|
            0 <= s < t < peers.len() ==> peer_lt(
                #[trigger] peers_by_turn(peers)[s],
                #[trigger] peers_by_turn(peers)[t],
            ),
        forall|x: PeerView|
            peers_by_turn(peers).contains(x) <==> assigned_parts(peers).contains(x),
{
    let keys = peer_keys(peers);
    let row = peers_by_turn(peers);
    order::sorted_positions_are_a_permutation(keys);
    assert forall|s: int, t: int| 0 <= s < t < peers.len() implies peer_lt(
        #[trigger] row[s],
        #[trigger] row[t],
    ) by {
        let (i, j) = (turns(peers)[s], turns(peers)[t]);
        assert(order::position_le(keys, i, j));
        assert(i != j);
        if i < j {
            assert(peers[i].name != peers[j].name);
        } else {
            assert(peers[j].name != peers[i].name);
        }
    }
    let parts = assigned_parts(peers);
    assert forall|x: PeerView| row.contains(x) <==> parts.contains(x) by {
        if row.contains(x) {
            let t = choose|t: int| 0 <= t < row.len() && row[t] == x;
            assert(0 <= turns(peers)[t] < peers.len());
            assert(parts[turns(peers)[t]] == x);
        }
        if parts.contains(x) {
            let i = choose|i: int| 0 <= i < parts.len() && parts[i] == x;
            assert(turns(peers).contains(i));
            let t = choose|t: int| 0 <= t < turns(peers).len() && turns(peers)[t] == i;
            assert(row[t] == x);
        }
    }
}

proof fn turns_agree(hosts: Seq<HostView>, a: Seq<PeerView>, b: Seq<PeerView>, t: int)
    requires
        a.len() == b.len(),
        peers_by_turn(a) == peers_by_turn(b),
        0 <= t <= a.len(),
    ensures
        forall|tags: Seq<Seq<char>>| #[trigger]
            turns_before(a, tags, t) == turns_before(b, tags, t),
        forall|h: int| #[trigger] ports_taken(hosts, a, h, t) == ports_taken(hosts, b, h, t),
        forall|tags: Seq<Seq<char>>| #[trigger]
            names_requiring(a, tags, t) == names_requiring(b, tags, t),
        forall|s: int|
            0 <= s < t ==> #[trigger] host_of_turn(hosts, a, s) == host_of_turn(hosts, b, s)
                && hosts_for_turn(hosts, a, s) == hosts_for_turn(hosts, b, s),
    decreases t,
{
    if t > 0 {
        turns_agree(hosts, a, b, t - 1);
        let s = t - 1;
        assert(peers_by_turn(a)[s] == assigned_part(a[turns(a)[s]]));
        assert(peers_by_turn(b)[s] == assigned_part(b[turns(b)[s]]));
        let tags = required_tags(a, turns(a)[t - 1]);
        assert(tags == required_tags(b, turns(b)[t - 1]));
        assert(turns_before(a, tags, t - 1) == turns_before(b, tags, t - 1));
        assert(host_of_turn(hosts, a, t - 1) == host_of_turn(hosts, b, t - 1));
        assert forall|other: Seq<Seq<char>>| #[trigger]
            turns_before(a, other, t) == turns_before(b, other, t) by {
            assert(turns_before(a, other, t - 1) == turns_before(b, other, t - 1));
        }
        assert forall|h: int| #[trigger]
            ports_taken(hosts, a, h, t) == ports_taken(hosts, b, h, t) by {
            assert(ports_taken(hosts, a, h, t - 1) == ports_taken(hosts, b, h, t - 1));
        }
        assert forall|other: Seq<Seq<char>>| #[trigger]
            names_requiring(a, other, t) == names_requiring(b, other, t) by {
            assert(names_requiring(a, other, t - 1) == names_requiring(b, other, t - 1));
        }
    }
}

proof fn first_unmatched_agrees(hosts: Seq<HostView>, a: Seq<PeerView>, b: Seq<PeerView>, t: int)
    requires
        a.len() == b.len(),
        peers_by_turn(a) == peers_by_turn(b),
        0 <= t <= a.len(),
    ensures
        first_unmatched(hosts, a, t) == first_unmatched(hosts, b, t),
    decreases a.len() - t,
{
    if t < a.len() {
        turns_agree(hosts, a, b, a.len() as int);
        assert(host_of_turn(hosts, a, t) == host_of_turn(hosts, b, t));
        first_unmatched_agrees(hosts, a, b, t + 1);
    }
}

/// The order in which the peers are configured makes no difference, nor does the order of the tags
/// that a peer requires, nor whom it bootstraps from: the same peers, with names that differ, are
/// assigned the same way, and fail with the same message.
pub proof fn configured_order_makes_no_difference(
    hosts: Seq<HostView>,
    a: Seq<PeerView>,
    b: Seq<PeerView>,
    common: Map<Seq<char>, Seq<char>>,
)
    requires
        a.len() == b.len(),
        names_differ(a),
        names_differ(b),
        are_among(a, b),
        are_among(b, a),
    ensures
        first_unmatched(hosts, a, 0) == first_unmatched(hosts, b, 0),
        assignments(hosts, a, common) == assignments(hosts, b, common),
        first_unmatched(hosts, a, 0) < a.len() ==> no_host_message(
            a,
            required_tags(a, turns(a)[first_unmatched(hosts, a, 0)]),
        ) == no_host_message(b, required_tags(b, turns(b)[first_unmatched(hosts, b, 0)])),
{
    peers_by_turn_are_in_strict_order(a);
    peers_by_turn_are_in_strict_order(b);
    assert forall|x: PeerView| peers_by_turn(a).contains(x) <==> peers_by_turn(b).contains(x) by {
        assert(peers_by_turn(a).contains(x) <==> assigned_parts(a).contains(x));
        assert(peers_by_turn(b).contains(x) <==> assigned_parts(b).contains(x));
        if assigned_parts(a).contains(x) {
            parts_are_among(a, b, x);
        }
        if assigned_parts(b).contains(x) {
            parts_are_among(b, a, x);
        }
    }
    strict_rows_agree(peers_by_turn(a), peers_by_turn(b));
    turns_agree(hosts, a, b, a.len() as int);
    first_unmatched_agrees(hosts, a, b, 0);
    first_unmatched_is_a_turn(hosts, a, 0);
    assert forall|t: int| 0 <= t < a.len() implies assigned_part(a[#[trigger] turns(a)[t]])
        == assigned_part(b[turns(b)[t]]) by {
        assert(peers_by_turn(a)[t] == peers_by_turn(b)[t]);
    }
    assert(name_keys(a) =~= name_keys(b)) by {
        assert forall|t: int| 0 <= t < a.len() implies name_keys(a)[t] == name_keys(b)[t] by {
            assert(assigned_part(a[turns(a)[t]]) == assigned_part(b[turns(b)[t]]));
        }
    }
    order::sorted_positions_are_a_permutation(name_keys(a));
    assert forall|k: int| 0 <= k < a.len() implies assignments(hosts, a, common)[k]
        == assignments(hosts, b, common)[k] by {
        let t = report_order(a)[k];
        assert(0 <= t < a.len());
        assert(assigned_part(a[turns(a)[t]]) == assigned_part(b[turns(b)[t]]));
        assert(host_of_turn(hosts, a, t) == host_of_turn(hosts, b, t));
        let h = host_of_turn(hosts, a, t);
        turns_agree(hosts, a, b, t);
        assert(ports_taken(hosts, a, h, t) == ports_taken(hosts, b, h, t));
    }
    assert(assignments(hosts, a, common) =~= assignments(hosts, b, common));
    let unmatched = first_unmatched(hosts, a, 0);
    if unmatched < a.len() {
        assert(assigned_part(a[turns(a)[unmatched]]) == assigned_part(b[turns(b)[unmatched]]));
        let tags = required_tags(a, turns(a)[unmatched]);
        assert(names_requiring(a, tags, a.len() as int) == names_requiring(
            b,
            tags,
            b.len() as int,
        ));
    }
}

// ---------------------------------------------------------------------------------------------
// What every assignment says
// ---------------------------------------------------------------------------------------------
/// The configured host that the assignment at position `k` of the report names.
pub open spec fn reported_host(hosts: Seq<HostView>, peers: Seq<PeerView>, k: int) -> int {
    host_of_turn(hosts, peers, report_order(peers)[k])
}

/// Every assignment says of its own peer what is configured: its name, its image, its environment
/// over the common one, a configured host that has each of the tags that it requires, and the
/// address of exactly the port that it is assigned.
pub proof fn assignments_describe_their_peers(
    hosts: Seq<HostView>,
    peers: Seq<PeerView>,
    common: Map<Seq<char>, Seq<char>>,
    k: int,
)
    requires
        0 <= k < peers.len(),
        first_unmatched(hosts, peers, 0) == peers.len(),
        ports_in_range(hosts, peers),
    ensures
        ({
            let list = assignments(hosts, peers, common);
            let peer = peers[reported_peers(peers)[k]];
            let h = reported_host(hosts, peers, k);
            &&& list.len() == peers.len()
            &&& list[k].peer_name == peer.name
            &&& list[k].docker_image == peer.image
            &&& list[k].listen_addr == "/ip4/0.0.0.0/udp/"@ + text::decimal(list[k].port as nat)
                + "/quic-v1"@
            &&& 0 <= h < hosts.len()
            &&& list[k].host == hosts[h]
            &&& forall|t: int|
                0 <= t < peer.runs_on.len() ==> list[k].host.tags.contains(
                    #[trigger] peer.runs_on[t],
                )
            &&& list[k].port >= list[k].host.base_port
            &&& forall|key: Seq<char>| #[trigger]
                list[k].extra_env.contains_key(key) <==> peer.environment.contains_key(key)
                    || common.contains_key(key)
            &&& forall|key: Seq<char>| #[trigger]
                list[k].extra_env.contains_key(key) ==> list[k].extra_env[key] == if
                    peer.environment.contains_key(key) {
                    peer.environment[key]
                } else {
                    common[key]
                }
        }),
{
    order::sorted_positions_are_a_permutation(peer_keys(peers));
    order::sorted_positions_are_a_permutation(name_keys(peers));
    let t = report_order(peers)[k];
    assert(0 <= t < peers.len());
    peers_run_on_hosts_with_their_tags(hosts, peers, t);
    ports_taken_grows(hosts, peers, host_of_turn(hosts, peers, t), t, t);
    assert(port_of_turn(hosts, peers, t) <= u16::MAX);
    let peer = peers[turns(peers)[t]];
    let host = hosts[host_of_turn(hosts, peers, t)];
    assert forall|m: int| 0 <= m < peer.runs_on.len() implies host.tags.contains(
        #[trigger] peer.runs_on[m],
    ) by {
        assert(carries(host, peer.runs_on));
    }
}

/// A host carries tags exactly where each of them is one of its own: every host carries none at all,
/// and one more tag has to be there too.
pub proof fn hosts_carry_their_own_tags(host: HostView, tags: Seq<Seq<char>>, tag: Seq<char>)
    ensures
        carries(host, Seq::empty()),
        carries(host, tags.push(tag)) <==> carries(host, tags) && host.tags.contains(tag),
{
    let more = tags.push(tag);
    if carries(host, more) {
        assert(host.tags.contains(more[tags.len() as int]));
        assert forall|k: int| 0 <= k < tags.len() implies host.tags.contains(
            #[trigger] tags[k],
        ) by {
            assert(host.tags.contains(more[k]));
        }
    }
}

/// Whether peer `j` takes its turn before peer `i`, of those that require the same tags: in the order
/// of their names, and of equal names in the order of the configuration.
pub open spec fn goes_first(peers: Seq<PeerView>, j: int, i: int) -> bool {
    &&& peers[j].runs_on.to_multiset() == peers[i].runs_on.to_multiset()
    &&& text::text_lt(peers[j].name, peers[i].name) || (peers[j].name == peers[i].name && j < i)
}

/// The peers that require the same tags as peer `i` and take their turns before it.
pub open spec fn going_first(peers: Seq<PeerView>, i: int) -> Set<int> {
    Set::new(|j: int| 0 <= j < peers.len() && goes_first(peers, j, i))
}

/// The peers of the first `t` turns that require `tags`.
spec fn turn_takers(peers: Seq<PeerView>, tags: Seq<Seq<char>>, t: int) -> Set<int> {
    Set::new(
        |j: int|
            exists|s: int|
                0 <= s < t && #[trigger] turns(peers)[s] == j && required_tags(peers, j) == tags,
    )
}

proof fn turns_before_counts_takers(peers: Seq<PeerView>, tags: Seq<Seq<char>>, t: int)
    requires
        0 <= t <= peers.len(),
    ensures
        turn_takers(peers, tags, t).finite(),
        turn_takers(peers, tags, t).len() == turns_before(peers, tags, t),
    decreases t,
{
    order::sorted_positions_are_a_permutation(peer_keys(peers));
    let all = turn_takers(peers, tags, t);
    if t == 0 {
        assert(all =~= Set::empty());
    } else {
        turns_before_counts_takers(peers, tags, t - 1);
        let front = turn_takers(peers, tags, t - 1);
        let last = turns(peers)[t - 1];
        if required_tags(peers, last) == tags {
            assert(!front.contains(last));
            assert forall|j: int| all.contains(j) implies front.insert(last).contains(j) by {
                let s = choose|s: int|
                    0 <= s < t && #[trigger] turns(peers)[s] == j && required_tags(peers, j)
                        == tags;
                if s < t - 1 {
                    assert(front.contains(j));
                }
            }
            assert forall|j: int| front.insert(last).contains(j) implies all.contains(j) by {
                if j != last {
                    let s = choose|s: int|
                        0 <= s < t - 1 && #[trigger] turns(peers)[s] == j && required_tags(peers, j)
                            == tags;
                    assert(turns(peers)[s] == j);
                } else {
                    assert(turns(peers)[t - 1] == j);
                }
            }
            assert(all =~= front.insert(last));
        } else {
            assert forall|j: int| all.contains(j) implies front.contains(j) by {
                let s = choose|s: int|
                    0 <= s < t && #[trigger] turns(peers)[s] == j && required_tags(peers, j)
                        == tags;
                assert(s < t - 1);
            }
            assert forall|j: int| front.contains(j) implies all.contains(j) by {
                let s = choose|s: int|
                    0 <= s < t - 1 && #[trigger] turns(peers)[s] == j && required_tags(peers, j)
                        == tags;
                assert(turns(peers)[s] == j);
            }
            assert(all =~= front);
        }
    }
}

proof fn same_tags_are_sorted_alike(a: Seq<Seq<char>>, b: Seq<Seq<char>>)
    ensures
        order::sorted_texts(a) == order::sorted_texts(b) <==> a.to_multiset() == b.to_multiset(),
{
    order::sorted_texts_are_a_permutation(a);
    order::sorted_texts_are_a_permutation(b);
    if a.to_multiset() == b.to_multiset() {
        order::sorted_texts_forget_the_order(a, b);
    }
}

/// The hosts that match are in the order of the configuration.
pub proof fn matching_hosts_are_in_order(
    hosts: Seq<HostView>,
    tags: Seq<Seq<char>>,
    c: int,
    d: int,
)
    requires
        0 <= c < d < matching_hosts(hosts, tags).len(),
    ensures
        matching_hosts(hosts, tags)[c] < matching_hosts(hosts, tags)[d],
{
    let all = Seq::new(hosts.len(), |h: int| h);
    order::filtered_rows_keep_their_order(all, |h: int| carries(hosts[h], tags), c, d);
}

/// Peers take turns on the hosts: of the peers that require the same tags, taken in the order of
/// their names, each runs on the host after the one of the peer before it, among the hosts that have
/// those tags, in the order of the configuration, and after the last of them on the first again.
pub proof fn peers_take_turns_on_the_hosts(hosts: Seq<HostView>, peers: Seq<PeerView>, k: int)
    requires
        0 <= k < peers.len(),
        first_unmatched(hosts, peers, 0) == peers.len(),
    ensures
        ({
            let i = reported_peers(peers)[k];
            let candidates = matching_hosts(hosts, peers[i].runs_on);
            &&& 0 <= i < peers.len()
            &&& candidates.len() > 0
            &&& going_first(peers, i).finite()
            &&& reported_host(hosts, peers, k) == candidates[going_first(peers, i).len() as int
                % candidates.len() as int]
        }),
{
    order::sorted_positions_are_a_permutation(peer_keys(peers));
    order::sorted_positions_are_a_permutation(name_keys(peers));
    first_unmatched_is_a_turn(hosts, peers, 0);
    let t = report_order(peers)[k];
    let i = turns(peers)[t];
    let tags = required_tags(peers, i);
    assert(hosts_for_turn(hosts, peers, t).len() > 0);
    assert(matching_hosts(hosts, tags) =~= matching_hosts(hosts, peers[i].runs_on)) by {
        let all = Seq::new(hosts.len(), |h: int| h);
        let sorted = |h: int| carries(hosts[h], tags);
        let given = |h: int| carries(hosts[h], peers[i].runs_on);
        assert forall|h: int| #[trigger] sorted(h) == given(h) by {
            carries_in_any_order(hosts[h], peers[i].runs_on);
        }
        assert(sorted =~= given);
    }
    turns_before_counts_takers(peers, tags, t);
    let takers = turn_takers(peers, tags, t);
    let first = going_first(peers, i);
    let keys = peer_keys(peers);
    assert forall|j: int| takers.contains(j) <==> first.contains(j) by {
        if 0 <= j < peers.len() {
            same_tags_are_sorted_alike(peers[j].runs_on, peers[i].runs_on);
            text::text_order_is_total(peers[i].name, peers[j].name);
            text::text_order_is_total(peers[i].name, peers[i].name);
            text::list_order_is_total(tags, tags);
        }
        if takers.contains(j) {
            let s = choose|s: int|
                0 <= s < t && #[trigger] turns(peers)[s] == j && required_tags(peers, j) == tags;
            assert(order::position_le(keys, turns(peers)[s], turns(peers)[t]));
            assert(j != i);
        }
        if first.contains(j) {
            assert(turns(peers).contains(j));
            let s = choose|s: int| 0 <= s < turns(peers).len() && turns(peers)[s] == j;
            if s >= t {
                assert(order::position_le(keys, turns(peers)[t], turns(peers)[s]));
            }
            assert(turns(peers)[s] == j);
        }
    }
    assert(takers =~= first);
}

/// The ports on a host have no gaps: below every port in use but the base port, the one before it is
/// in use on the same host.
pub proof fn ports_have_no_gaps(
    hosts: Seq<HostView>,
    peers: Seq<PeerView>,
    common: Map<Seq<char>, Seq<char>>,
    k: int,
)
    requires
        0 <= k < peers.len(),
        first_unmatched(hosts, peers, 0) == peers.len(),
        ports_in_range(hosts, peers),
        assignments(hosts, peers, common)[k].port > assignments(hosts, peers, common)[k].host.base_port,
    ensures
        exists|m: int|
            0 <= m < peers.len() && reported_host(hosts, peers, m) == reported_host(hosts, peers, k)
                && (#[trigger] assignments(hosts, peers, common)[m]).port + 1 == assignments(
                hosts,
                peers,
                common,
            )[k].port,
{
    order::sorted_positions_are_a_permutation(peer_keys(peers));
    order::sorted_positions_are_a_permutation(name_keys(peers));
    let t = report_order(peers)[k];
    let h = host_of_turn(hosts, peers, t);
    ports_taken_grows(hosts, peers, h, t, t);
    assert(port_of_turn(hosts, peers, t) <= u16::MAX);
    let s = last_turn_there(hosts, peers, h, t);
    assert(report_order(peers).contains(s));
    let m = choose|m: int| 0 <= m < report_order(peers).len() && report_order(peers)[m] == s;
    assert(port_of_turn(hosts, peers, s) <= u16::MAX);
    ports_taken_grows(hosts, peers, h, s, s);
    assert(assignments(hosts, peers, common)[m].port + 1 == assignments(hosts, peers, common)[k].port);
}

proof fn last_turn_there(hosts: Seq<HostView>, peers: Seq<PeerView>, h: int, t: int) -> (s: int)
    requires
        0 <= t,
        ports_taken(hosts, peers, h, t) > 0,
    ensures
        0 <= s < t,
        host_of_turn(hosts, peers, s) == h,
        ports_taken(hosts, peers, h, s) + 1 == ports_taken(hosts, peers, h, t),
    decreases t,
{
    if host_of_turn(hosts, peers, t - 1) == h {
        t - 1
    } else {
        last_turn_there(hosts, peers, h, t - 1)
    }
}

/// On one host the lower ports go to the peers that come first: by their sorted tags, then by their
/// names.
pub proof fn lower_ports_go_to_earlier_peers(
    hosts: Seq<HostView>,
    peers: Seq<PeerView>,
    common: Map<Seq<char>, Seq<char>>,
    k: int,
    m: int,
)
    requires
        0 <= k < peers.len(),
        0 <= m < peers.len(),
        first_unmatched(hosts, peers, 0) == peers.len(),
        ports_in_range(hosts, peers),
        reported_host(hosts, peers, k) == reported_host(hosts, peers, m),
        ({
            let (a, b) = (peers[reported_peers(peers)[k]], peers[reported_peers(peers)[m]]);
            let (x, y) = (order::sorted_texts(a.runs_on), order::sorted_texts(b.runs_on));
            text::list_lt(x, y) || (x == y && text::text_lt(a.name, b.name))
        }),
    ensures
        assignments(hosts, peers, common)[k].port < assignments(hosts, peers, common)[m].port,
{
    order::sorted_positions_are_a_permutation(peer_keys(peers));
    order::sorted_positions_are_a_permutation(name_keys(peers));
    let (s, t) = (report_order(peers)[k], report_order(peers)[m]);
    let (i, j) = (turns(peers)[s], turns(peers)[t]);
    let keys = peer_keys(peers);
    text::list_order_is_total(keys[i].0, keys[j].0);
    text::text_order_is_total(keys[i].1, keys[j].1);
    if t <= s {
        assert(order::position_le(keys, j, i));
    }
    ports_on_a_host_differ(hosts, peers, s, t);
    ports_taken_grows(hosts, peers, host_of_turn(hosts, peers, s), s, s);
    ports_taken_grows(hosts, peers, host_of_turn(hosts, peers, t), t, t);
    assert(port_of_turn(hosts, peers, s) <= u16::MAX);
    assert(port_of_turn(hosts, peers, t) <= u16::MAX);
}

/// Where assigning fails, the tags that are told are those of a peer that no host can run, and of all
/// such tags the ones that come first.
pub proof fn failures_tell_the_first_tags_without_a_host(
    hosts: Seq<HostView>,
    peers: Seq<PeerView>,
    i: int,
)
    requires
        first_unmatched(hosts, peers, 0) < peers.len(),
        0 <= i < peers.len(),
        forall|h: int| 0 <= h < hosts.len() ==> !carries(#[trigger] hosts[h], peers[i].runs_on),
    ensures
        ({
            let told = turns(peers)[first_unmatched(hosts, peers, 0)];
            &&& 0 <= told < peers.len()
            &&& forall|h: int|
                0 <= h < hosts.len() ==> !carries(#[trigger] hosts[h], peers[told].runs_on)
            &&& !text::list_lt(
                order::sorted_texts(peers[i].runs_on),
                order::sorted_texts(peers[told].runs_on),
            )
        }),
{
    let unmatched = first_unmatched(hosts, peers, 0);
    let keys = peer_keys(peers);
    first_unmatched_is_a_turn(hosts, peers, 0);
    order::sorted_positions_are_a_permutation(keys);
    let told = turns(peers)[unmatched];
    matching_hosts_carry_the_tags(hosts, required_tags(peers, told));
    assert forall|h: int| 0 <= h < hosts.len() implies !carries(
        #[trigger] hosts[h],
        peers[told].runs_on,
    ) by {
        carries_in_any_order(hosts[h], peers[told].runs_on);
        assert(!matching_hosts(hosts, required_tags(peers, told)).contains(h));
    }
    assert(turns(peers).contains(i));
    let t = choose|t: int| 0 <= t < turns(peers).len() && turns(peers)[t] == i;
    if t < unmatched {
        assert(hosts_for_turn(hosts, peers, t).len() > 0);
        let matching = matching_hosts(hosts, required_tags(peers, i));
        matching_hosts_carry_the_tags(hosts, required_tags(peers, i));
        let h = matching[0];
        assert(matching.contains(h));
        carries_in_any_order(hosts[h], peers[i].runs_on);
        assert(!carries(hosts[h], peers[i].runs_on));
    }
    assert(order::position_le(keys, turns(peers)[unmatched], turns(peers)[t]));
    text::list_order_is_total(keys[told].0, keys[i].0);
}

/// Those who are told to require tags are the peers that do, whatever order they list them in, and no
/// others.
pub proof fn peers_that_require_tags_are_told(
    peers: Seq<PeerView>,
    tags: Seq<Seq<char>>,
    name: Seq<char>,
)
    ensures
        names_requiring(peers, order::sorted_texts(tags), peers.len() as int).contains(name)
            <==> exists|i: int|
            0 <= i < peers.len() && (#[trigger] peers[i]).name == name
                && peers[i].runs_on.to_multiset() == tags.to_multiset(),
{
    let sorted = order::sorted_texts(tags);
    let n = peers.len() as int;
    order::sorted_positions_are_a_permutation(peer_keys(peers));
    if names_requiring(peers, sorted, n).contains(name) {
        let s = told_names_require(peers, sorted, n, name);
        let i = turns(peers)[s];
        same_tags_are_sorted_alike(peers[i].runs_on, tags);
        assert(peers[i].name == name);
    }
    if exists|i: int|
        0 <= i < peers.len() && (#[trigger] peers[i]).name == name
            && peers[i].runs_on.to_multiset() == tags.to_multiset() {
        let i = choose|i: int|
            0 <= i < peers.len() && (#[trigger] peers[i]).name == name
                && peers[i].runs_on.to_multiset() == tags.to_multiset();
        same_tags_are_sorted_alike(peers[i].runs_on, tags);
        assert(turns(peers).contains(i));
        let s = choose|s: int| 0 <= s < turns(peers).len() && turns(peers)[s] == i;
        requiring_names_are_listed(peers, sorted, n, s);
    }
}

proof fn told_names_require(
    peers: Seq<PeerView>,
    tags: Seq<Seq<char>>,
    t: int,
    name: Seq<char>,
) -> (s: int)
    requires
        names_requiring(peers, tags, t).contains(name),
    ensures
        0 <= s < t,
        required_tags(peers, turns(peers)[s]) == tags,
        peers[turns(peers)[s]].name == name,
    decreases t,
{
    let names = names_requiring(peers, tags, t);
    let k = choose|k: int| 0 <= k < names.len() && names[k] == name;
    let front = names_requiring(peers, tags, t - 1);
    if k < front.len() {
        assert(front[k] == name);
        told_names_require(peers, tags, t - 1, name)
    } else {
        t - 1
    }
}

} // verus!
