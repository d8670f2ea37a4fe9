//! What the orchestrator decides while it waits for its peers, introduces them to each other and
//! shuts them down.
use vstd::prelude::*;

use crate::client;
use crate::client::CommandMeaning;
use crate::config;
use crate::config::{PeerConfig, PeerName, PeerView};
use crate::outside;
use crate::peer_monitor::PeerState;
use crate::show;
use crate::text;

verus! {

// ---------------------------------------------------------------------------------------------
// Waiting
// ---------------------------------------------------------------------------------------------
/// Whether a peer has the given status.
pub open spec fn has_status(
    statuses: Map<Seq<char>, Seq<char>>,
    peer: Seq<char>,
    word: Seq<char>,
) -> bool {
    statuses.contains_key(peer) && statuses[peer] == word
}

/// Whether all of the peers have the given status.
pub open spec fn all_have_status(
    statuses: Map<Seq<char>, Seq<char>>,
    peers: Seq<Seq<char>>,
    word: Seq<char>,
) -> bool {
    forall|i: int| 0 <= i < peers.len() ==> has_status(statuses, #[trigger] peers[i], word)
}

/// The peers among the first `n` that do not have the given status.
pub open spec fn others(
    statuses: Map<Seq<char>, Seq<char>>,
    peers: Seq<Seq<char>>,
    word: Seq<char>,
    n: int,
) -> Seq<Seq<char>>
    decreases n,
{
    if n <= 0 {
        Seq::empty()
    } else if has_status(statuses, peers[n - 1], word) {
        others(statuses, peers, word, n - 1)
    } else {
        others(statuses, peers, word, n - 1).push(peers[n - 1])
    }
}

/// Whether a peer has the given status.
fn peer_has_status(state: &PeerState, peer: &PeerName, word: &str) -> (r: bool)
    ensures
        r == has_status(state@.statuses, peer@, word@),
{
    match state.statuses.get(peer.as_str()) {
        Some(status) => text::same_text(status.as_str(), word),
        None => false,
    }
}

/// Whether all of the peers have the given status.
pub fn peers_have_status(state: &PeerState, peer_names: &Vec<PeerName>, word: &str) -> (r: bool)
    ensures
        r == all_have_status(state@.statuses, config::peer_names(peer_names@), word@),
{
    let mut i: usize = 0;
    let ghost names = config::peer_names(peer_names@);
    while i < peer_names.len()
        invariant
            i <= peer_names@.len(),
            names == config::peer_names(peer_names@),
            forall|k: int| 0 <= k < i ==> has_status(state@.statuses, #[trigger] names[k], word@),
        decreases peer_names@.len() - i,
    {
        if !peer_has_status(state, &peer_names[i], word) {
            assert(!has_status(state@.statuses, names[i as int], word@));
            return false;
        }
        i = i + 1;
    }
    true
}

/// What to do while waiting for peers.
pub enum WaitStep {
    /// All peers are there.
    Done,
    /// The time is over; this says who is missing.
    TimedOut(String),
    /// Look again after a second.
    Sleep,
}

/// A peer and its status, as a peer that is missing is shown.
pub open spec fn missing_text(statuses: Map<Seq<char>, Seq<char>>, peer: Seq<char>) -> Seq<char> {
    peer + " (status="@ + (if statuses.contains_key(peer) {
        statuses[peer]
    } else {
        "unknown"@
    }) + ")"@
}

/// The peers that have not started, each with its status.
pub open spec fn missing_texts(
    statuses: Map<Seq<char>, Seq<char>>,
    peers: Seq<Seq<char>>,
) -> Seq<Seq<char>> {
    let missing = others(statuses, peers, "started"@, peers.len() as int);
    Seq::new(missing.len(), |i: int| missing_text(statuses, missing[i]))
}

/// The message for peers that did not start in time.
pub open spec fn not_started_message(
    statuses: Map<Seq<char>, Seq<char>>,
    peers: Seq<Seq<char>>,
) -> Seq<char> {
    "timeout waiting for peers to start. Missing: "@ + show::debug_list(
        missing_texts(statuses, peers),
    )
}

/// Whether a message names every peer that has not started, where name and status are plain ASCII.
pub open spec fn names_the_missing(
    message: Seq<char>,
    statuses: Map<Seq<char>, Seq<char>>,
    peers: Seq<Seq<char>>,
) -> bool {
    forall|i: int|
        0 <= i < peers.len() && !has_status(statuses, #[trigger] peers[i], "started"@)
            && outside::is_plain(missing_text(statuses, peers[i])) ==> text::occurs(
            peers[i],
            message,
        )
}

/// Whether a message names every peer that has not stopped, where the name is plain ASCII.
pub open spec fn names_the_running(
    message: Seq<char>,
    statuses: Map<Seq<char>, Seq<char>>,
    peers: Seq<Seq<char>>,
) -> bool {
    forall|i: int|
        0 <= i < peers.len() && !has_status(statuses, #[trigger] peers[i], "stopped"@)
            && outside::is_plain(peers[i]) ==> text::occurs(peers[i], message)
}

/// The message for peers that did not stop in time.
pub open spec fn not_stopped_message(
    statuses: Map<Seq<char>, Seq<char>>,
    peers: Seq<Seq<char>>,
) -> Seq<char> {
    let running = others(statuses, peers, "stopped"@, peers.len() as int);
    "timeout waiting for peers to stop. Still running: "@ + show::bracketed(
        Seq::new(running.len(), |i: int| peer_debug(running[i])),
    )
}

/// A peer name as `{:?}` writes it.
pub open spec fn peer_debug(peer: Seq<char>) -> Seq<char> {
    "PeerName("@ + outside::debug_text(peer) + ")"@
}

/// What to do after waiting for `elapsed` of `timeout` nanoseconds for all peers to have a status:
/// the time is looked at first.
pub open spec fn wait_decision(
    statuses: Map<Seq<char>, Seq<char>>,
    peers: Seq<Seq<char>>,
    word: Seq<char>,
    elapsed: u128,
    timeout: u128,
    step: WaitStep,
    message: Seq<char>,
) -> bool {
    if elapsed >= timeout {
        step matches WaitStep::TimedOut(why) && why@ == message
    } else if all_have_status(statuses, peers, word) {
        step is Done
    } else {
        step is Sleep
    }
}

/// The peers that do not have the given status.
fn peers_without_status(state: &PeerState, peer_names: &Vec<PeerName>, word: &str) -> (r: Vec<
    String,
>)
    ensures
        text::texts(r@) == others(
            state@.statuses,
            config::peer_names(peer_names@),
            word@,
            peer_names@.len() as int,
        ),
{
    let mut out: Vec<String> = Vec::new();
    let mut i: usize = 0;
    let ghost names = config::peer_names(peer_names@);
    assert(text::texts(out@) =~= Seq::empty());
    while i < peer_names.len()
        invariant
            i <= peer_names@.len(),
            names == config::peer_names(peer_names@),
            text::texts(out@) == others(state@.statuses, names, word@, i as int),
        decreases peer_names@.len() - i,
    {
        let ghost before = out@;
        if !peer_has_status(state, &peer_names[i], word) {
            out.push(peer_names[i].as_str().to_owned());
            assert(text::texts(out@) =~= text::texts(before).push(names[i as int]));
        }
        i = i + 1;
    }
    out
}

/// A peer and its status, as a peer that is missing is shown.
fn show_missing(state: &PeerState, peer: &str) -> (r: String)
    ensures
        r@ == missing_text(state@.statuses, peer@),
{
    let mut out = peer.to_owned();
    out.push_str(" (status=");
    match state.statuses.get(peer) {
        Some(status) => {
            out.push_str(status.as_str());
        },
        None => {
            out.push_str("unknown");
        },
    }
    out.push_str(")");
    out
}

/// The message for peers that did not start in time, as they are shown.
pub fn not_started_text(missing: &str) -> (r: String)
    ensures
        r@ == "timeout waiting for peers to start. Missing: "@ + missing@,
{
    let mut out = "timeout waiting for peers to start. Missing: ".to_owned();
    out.push_str(missing);
    out
}

/// The message for peers that did not stop in time, as they are shown.
pub fn not_stopped_text(running: &str) -> (r: String)
    ensures
        r@ == "timeout waiting for peers to stop. Still running: "@ + running@,
{
    let mut out = "timeout waiting for peers to stop. Still running: ".to_owned();
    out.push_str(running);
    out
}

/// Where it is known how plain ASCII is shown, the message names the peers that have not started.
proof fn missing_are_named(statuses: Map<Seq<char>, Seq<char>>, peers: Seq<Seq<char>>)
    ensures
        show::plain_are_known(missing_texts(statuses, peers)) ==> names_the_missing(
            not_started_message(statuses, peers),
            statuses,
            peers,
        ),
{
    let shown = missing_texts(statuses, peers);
    let missing = others(statuses, peers, "started"@, peers.len() as int);
    let message = not_started_message(statuses, peers);
    let list = show::debug_list(shown);
    let none = Seq::<char>::empty();
    others_are_those_without(statuses, peers, "started"@, peers.len() as int);
    text::parts_occur("timeout waiting for peers to start. Missing: "@, list, none);
    assert("timeout waiting for peers to start. Missing: "@ + list + none =~= message);
    if show::plain_are_known(shown) {
        assert forall|i: int|
            0 <= i < peers.len() && !has_status(statuses, #[trigger] peers[i], "started"@)
                && outside::is_plain(missing_text(statuses, peers[i])) implies text::occurs(
            peers[i],
            message,
        ) by {
            let k = choose|k: int| 0 <= k < missing.len() && missing[k] == peers[i];
            let entry = missing_text(statuses, peers[i]);
            assert(shown[k] == entry);
            show::listed_texts_occur(shown, k);
            let tail = entry.skip(peers[i].len() as int);
            text::parts_occur(none, peers[i], tail);
            assert(none + peers[i] + tail =~= entry);
            text::occurrences_nest(peers[i], entry, list);
            text::occurrences_nest(peers[i], list, message);
        }
    }
}

/// Where it is known how plain ASCII is shown, the message names the peers that have not stopped.
proof fn running_are_named(statuses: Map<Seq<char>, Seq<char>>, peers: Seq<Seq<char>>)
    ensures
        show::plain_are_known(others(statuses, peers, "stopped"@, peers.len() as int))
            ==> names_the_running(not_stopped_message(statuses, peers), statuses, peers),
{
    let running = others(statuses, peers, "stopped"@, peers.len() as int);
    let shown = Seq::new(running.len(), |i: int| peer_debug(running[i]));
    let message = not_stopped_message(statuses, peers);
    let list = show::bracketed(shown);
    let none = Seq::<char>::empty();
    others_are_those_without(statuses, peers, "stopped"@, peers.len() as int);
    text::parts_occur("timeout waiting for peers to stop. Still running: "@, list, none);
    assert("timeout waiting for peers to stop. Still running: "@ + list + none =~= message);
    if show::plain_are_known(running) {
        assert forall|i: int|
            0 <= i < peers.len() && !has_status(statuses, #[trigger] peers[i], "stopped"@)
                && outside::is_plain(peers[i]) implies text::occurs(peers[i], message) by {
            let k = choose|k: int| 0 <= k < running.len() && running[k] == peers[i];
            show::bracketed_texts_occur(shown, k);
            show::quoted_texts_occur(peers[i]);
            text::parts_occur("PeerName("@, outside::quoted(peers[i]), ")"@);
            text::occurrences_nest(peers[i], outside::quoted(peers[i]), shown[k]);
            text::occurrences_nest(peers[i], shown[k], list);
            text::occurrences_nest(peers[i], list, message);
        }
    }
}

/// Decides what to do while waiting for all peers to report that they have started.
pub fn wait_for_peers_started(
    state: &PeerState,
    peer_names: &Vec<PeerName>,
    elapsed_nanos: u128,
    timeout_nanos: u128,
) -> (r: WaitStep)
    ensures
        wait_decision(
            state@.statuses,
            config::peer_names(peer_names@),
            "started"@,
            elapsed_nanos,
            timeout_nanos,
            r,
            not_started_message(state@.statuses, config::peer_names(peer_names@)),
        ),
        r matches WaitStep::TimedOut(why) ==> {
            &&& show::plain_are_known(
                missing_texts(state@.statuses, config::peer_names(peer_names@)),
            )
            &&& names_the_missing(why@, state@.statuses, config::peer_names(peer_names@))
        },
{
    if elapsed_nanos < timeout_nanos {
        if peers_have_status(state, peer_names, "started") {
            return WaitStep::Done;
        }
        return WaitStep::Sleep;
    }
    let missing = peers_without_status(state, peer_names, "started");
    let ghost names = text::texts(missing@);
    let ghost wanted = Seq::new(names.len(), |i: int| missing_text(state@.statuses, names[i]));
    let mut shown: Vec<String> = Vec::new();
    let mut i: usize = 0;
    while i < missing.len()
        invariant
            i <= missing@.len(),
            names == text::texts(missing@),
            wanted == Seq::new(names.len(), |i: int| missing_text(state@.statuses, names[i])),
            text::texts(shown@) == wanted.take(i as int),
        decreases missing@.len() - i,
    {
        let ghost before = shown@;
        let entry = show_missing(state, missing[i].as_str());
        let ghost entry_text = entry@;
        shown.push(entry);
        assert(text::texts(shown@) =~= text::texts(before).push(entry_text));
        i = i + 1;
    }
    assert(wanted.take(wanted.len() as int) =~= wanted);
    let list = show::show_list(&shown);
    proof {
        missing_are_named(state@.statuses, config::peer_names(peer_names@));
    }
    WaitStep::TimedOut(not_started_text(list.as_str()))
}

/// Decides what to do while waiting for all peers to report that they have stopped.
pub fn wait_for_peers_stopped(
    state: &PeerState,
    peer_names: &Vec<PeerName>,
    elapsed_nanos: u128,
    timeout_nanos: u128,
) -> (r: WaitStep)
    ensures
        wait_decision(
            state@.statuses,
            config::peer_names(peer_names@),
            "stopped"@,
            elapsed_nanos,
            timeout_nanos,
            r,
            not_stopped_message(state@.statuses, config::peer_names(peer_names@)),
        ),
        r matches WaitStep::TimedOut(why) ==> {
            &&& show::plain_are_known(
                others(
                    state@.statuses,
                    config::peer_names(peer_names@),
                    "stopped"@,
                    peer_names@.len() as int,
                ),
            )
            &&& names_the_running(why@, state@.statuses, config::peer_names(peer_names@))
        },
{
    if elapsed_nanos < timeout_nanos {
        if peers_have_status(state, peer_names, "stopped") {
            return WaitStep::Done;
        }
        return WaitStep::Sleep;
    }
    let running = peers_without_status(state, peer_names, "stopped");
    let ghost names = text::texts(running@);
    let ghost wanted = Seq::new(names.len(), |i: int| peer_debug(names[i]));
    let mut shown: Vec<String> = Vec::new();
    let mut i: usize = 0;
    while i < running.len()
        invariant
            i <= running@.len(),
            names == text::texts(running@),
            wanted == Seq::new(names.len(), |i: int| peer_debug(names[i])),
            text::texts(shown@) == wanted.take(i as int),
            show::plain_are_known(names.take(i as int)),
        decreases running@.len() - i,
    {
        let ghost before = shown@;
        let mut entry = "PeerName(".to_owned();
        entry.push_str(outside::debug_of(running[i].as_str()).as_str());
        entry.push_str(")");
        let ghost entry_text = entry@;
        shown.push(entry);
        assert(text::texts(shown@) =~= text::texts(before).push(entry_text));
        assert(names.take(i + 1) =~= names.take(i as int).push(names[i as int]));
        i = i + 1;
    }
    assert(wanted.take(wanted.len() as int) =~= wanted);
    assert(names.take(names.len() as int) =~= names);
    proof {
        running_are_named(state@.statuses, config::peer_names(peer_names@));
    }
    WaitStep::TimedOut(not_stopped_text(show::show_bracketed(&shown).as_str()))
}

/// Nobody is missing if and only if all peers have the status.
pub proof fn nobody_is_missing(
    statuses: Map<Seq<char>, Seq<char>>,
    peers: Seq<Seq<char>>,
    word: Seq<char>,
)
    ensures
        others(statuses, peers, word, peers.len() as int).len() == 0 <==> all_have_status(
            statuses,
            peers,
            word,
        ),
{
    others_are_those_without(statuses, peers, word, peers.len() as int);
}

/// The others are exactly the peers that do not have the status.
pub proof fn others_are_those_without(
    statuses: Map<Seq<char>, Seq<char>>,
    peers: Seq<Seq<char>>,
    word: Seq<char>,
    n: int,
)
    requires
        0 <= n <= peers.len(),
    ensures
        others(statuses, peers, word, n).len() == 0 <==> forall|i: int|
            0 <= i < n ==> has_status(statuses, #[trigger] peers[i], word),
        forall|i: int|
            0 <= i < n && !has_status(statuses, #[trigger] peers[i], word) ==> others(
                statuses,
                peers,
                word,
                n,
            ).contains(peers[i]),
        forall|k: int|
            0 <= k < others(statuses, peers, word, n).len() ==> !has_status(
                statuses,
                #[trigger] others(statuses, peers, word, n)[k],
                word,
            ),
    decreases n,
{
    if n > 0 {
        others_are_those_without(statuses, peers, word, n - 1);
        let front = others(statuses, peers, word, n - 1);
        let all = others(statuses, peers, word, n);
        if !has_status(statuses, peers[n - 1], word) {
            assert(all[all.len() - 1] == peers[n - 1]);
            assert forall|i: int|
                0 <= i < n && !has_status(statuses, #[trigger] peers[i], word) implies all.contains(
                peers[i],
            ) by {
                if i < n - 1 {
                    let k = choose|k: int| 0 <= k < front.len() && front[k] == peers[i];
                    assert(all[k] == peers[i]);
                }
            }
        }
    }
}

/// Waiting is over when the time is, and before that exactly when every peer has the status that is
/// waited for, word for word.
pub proof fn waiting_comes_to_an_end(
    statuses: Map<Seq<char>, Seq<char>>,
    peers: Seq<Seq<char>>,
    word: Seq<char>,
    elapsed: u128,
    timeout: u128,
    step: WaitStep,
    message: Seq<char>,
)
    requires
        wait_decision(statuses, peers, word, elapsed, timeout, step, message),
    ensures
        step is TimedOut <==> elapsed >= timeout,
        step is Done <==> elapsed < timeout && forall|i: int|
            0 <= i < peers.len() ==> statuses.contains_key(#[trigger] peers[i])
                && statuses[peers[i]] == word,
        step matches WaitStep::TimedOut(why) ==> why@ == message,
{
    assert(all_have_status(statuses, peers, word) <==> forall|i: int|
        0 <= i < peers.len() ==> statuses.contains_key(#[trigger] peers[i]) && statuses[peers[i]]
            == word) by {
        assert forall|i: int| 0 <= i < peers.len() && all_have_status(statuses, peers, word) implies
            statuses.contains_key(#[trigger] peers[i]) && statuses[peers[i]] == word by {
            assert(has_status(statuses, peers[i], word));
        }
    }
}

/// What waiting for one peer more comes to: all have the status if and only if that peer has it and
/// the others do.
pub proof fn one_peer_more(
    statuses: Map<Seq<char>, Seq<char>>,
    peers: Seq<Seq<char>>,
    peer: Seq<char>,
    word: Seq<char>,
)
    ensures
        all_have_status(statuses, peers.push(peer), word) <==> all_have_status(
            statuses,
            peers,
            word,
        ) && statuses.contains_key(peer) && statuses[peer] == word,
{
    let more = peers.push(peer);
    if all_have_status(statuses, more, word) {
        assert(has_status(statuses, more[peers.len() as int], word));
        assert forall|i: int| 0 <= i < peers.len() implies has_status(
            statuses,
            #[trigger] peers[i],
            word,
        ) by {
            assert(has_status(statuses, more[i], word));
        }
    }
}

/// The others keep the order of the peers: the last peer, where it lacks the status, is the last of
/// them, and otherwise changes nothing.
pub proof fn others_keep_their_order(
    statuses: Map<Seq<char>, Seq<char>>,
    peers: Seq<Seq<char>>,
    word: Seq<char>,
    n: int,
)
    requires
        0 < n <= peers.len(),
    ensures
        others(statuses, peers, word, n) == others(statuses, peers, word, n - 1) + (
        if statuses.contains_key(peers[n - 1]) && statuses[peers[n - 1]] == word {
            Seq::empty()
        } else {
            seq![peers[n - 1]]
        }),
        others(statuses, peers, word, 0).len() == 0,
{
    assert(others(statuses, peers, word, n - 1) + Seq::<Seq<char>>::empty() =~= others(
        statuses,
        peers,
        word,
        n - 1,
    ));
}

/// A peer that has not started is told with its status, or as unknown where it has none.
pub proof fn missing_peers_are_told_with_their_status(
    statuses: Map<Seq<char>, Seq<char>>,
    peers: Seq<Seq<char>>,
    i: int,
)
    requires
        0 <= i < others(statuses, peers, "started"@, peers.len() as int).len(),
    ensures
        ({
            let peer = others(statuses, peers, "started"@, peers.len() as int)[i];
            let told = missing_texts(statuses, peers)[i];
            &&& told.len() >= peer.len()
            &&& told.take(peer.len() as int) == peer
            &&& statuses.contains_key(peer) ==> text::occurs(statuses[peer], told)
            &&& !statuses.contains_key(peer) ==> text::occurs("unknown"@, told)
        }),
{
    let peer = others(statuses, peers, "started"@, peers.len() as int)[i];
    let told = missing_texts(statuses, peers)[i];
    let status = if statuses.contains_key(peer) {
        statuses[peer]
    } else {
        "unknown"@
    };
    assert(told.take(peer.len() as int) =~= peer);
    text::parts_occur(peer + " (status="@, status, ")"@);
}

// ---------------------------------------------------------------------------------------------
// Bootstrapping
// ---------------------------------------------------------------------------------------------
/// Whether the address of every peer that some peer bootstraps from is known.
pub open spec fn addresses_known(
    peers: Seq<PeerView>,
    info: Map<Seq<char>, (Seq<char>, Seq<char>)>,
) -> bool {
    forall|i: int, k: int|
        0 <= i < peers.len() && 0 <= k < peers[i].bootstrap.len() ==> info.contains_key(
            #[trigger] peers[i].bootstrap[k],
        )
}

/// Whether the address of every peer that some peer bootstraps from is known.
fn addresses_are_known(peers: &Vec<PeerConfig>, state: &PeerState) -> (r: bool)
    ensures
        r == addresses_known(config::peers_view(peers@), state@.peer_info),
{
    let mut i: usize = 0;
    let ghost views = config::peers_view(peers@);
    while i < peers.len()
        invariant
            i <= peers@.len(),
            views == config::peers_view(peers@),
            forall|m: int, k: int|
                0 <= m < i && 0 <= k < views[m].bootstrap.len()
                    ==> state@.peer_info.contains_key(#[trigger] views[m].bootstrap[k]),
        decreases peers@.len() - i,
    {
        let mut k: usize = 0;
        while k < peers[i].bootstrap.len()
            invariant
                i < peers@.len(),
                k <= peers@[i as int].bootstrap@.len(),
                views == config::peers_view(peers@),
                forall|n: int|
                    0 <= n < k ==> state@.peer_info.contains_key(
                        #[trigger] views[i as int].bootstrap[n],
                    ),
            decreases peers@[i as int].bootstrap@.len() - k,
        {
            let name = &peers[i].bootstrap[k];
            assert(views[i as int].bootstrap[k as int] == name@);
            if !state.peer_info.contains_key(name.as_str()) {
                return false;
            }
            k = k + 1;
        }
        i = i + 1;
    }
    true
}

/// How long the orchestrator waits for the addresses of the peers, in nanoseconds.
pub const BOOTSTRAP_WAIT_NANOS: u128 = 10_000_000_000;

/// Whether waiting for the addresses of the peers is over: they are all known, or ten seconds have
/// gone by.
pub fn bootstrap_wait_is_over(
    peers: &Vec<PeerConfig>,
    state: &PeerState,
    elapsed_nanos: u128,
) -> (r: bool)
    ensures
        r == (addresses_known(config::peers_view(peers@), state@.peer_info) || elapsed_nanos
            >= 10_000_000_000),
{
    addresses_are_known(peers, state) || elapsed_nanos >= BOOTSTRAP_WAIT_NANOS
}

/// One step of introducing peers to each other.
pub enum BootstrapStep {
    /// Push a command under a key, then log the note; the peer is named where that fails.
    Send { peer: String, key: String, command: String, note: String },
    /// The address is not known: log the warning.
    Unknown { warning: String },
}

/// What a step of introducing peers says.
pub enum BootstrapView {
    Send { peer: Seq<char>, key: Seq<char>, command: Seq<char>, note: Seq<char> },
    Unknown { warning: Seq<char> },
}

impl View for BootstrapStep {
    type V = BootstrapView;

    open spec fn view(&self) -> BootstrapView {
        match self {
            BootstrapStep::Send { peer, key, command, note } => BootstrapView::Send {
                peer: peer@,
                key: key@,
                command: command@,
                note: note@,
            },
            BootstrapStep::Unknown { warning } => BootstrapView::Unknown { warning: warning@ },
        }
    }
}

/// What a list of steps says.
pub open spec fn steps_view(steps: Seq<BootstrapStep>) -> Seq<BootstrapView> {
    Seq::new(steps.len(), |i: int| steps[i]@)
}

/// The command that introduces a peer: its identity and its address.
pub open spec fn bootstrap_command(identity: Seq<char>, address: Seq<char>) -> Seq<char> {
    "peer|"@ + identity + "|"@ + address
}

/// The step that introduces `other` to `peer`.
pub open spec fn introduction(
    info: Map<Seq<char>, (Seq<char>, Seq<char>)>,
    peer: Seq<char>,
    other: Seq<char>,
) -> BootstrapView {
    if info.contains_key(other) {
        let (identity, address) = info[other];
        BootstrapView::Send {
            peer,
            key: client::command_key(peer),
            command: bootstrap_command(identity, address),
            note: "sent bootstrap: "@ + peer + " -> "@ + other + " ("@ + address + ")"@,
        }
    } else {
        BootstrapView::Unknown {
            warning: "bootstrap peer '"@ + other + "' not found in peer_info for '"@ + peer + "'"@,
        }
    }
}

/// The steps that introduce to one peer all peers that it bootstraps from.
pub open spec fn introductions_to(
    info: Map<Seq<char>, (Seq<char>, Seq<char>)>,
    peer: PeerView,
) -> Seq<BootstrapView> {
    Seq::new(peer.bootstrap.len(), |k: int| introduction(info, peer.name, peer.bootstrap[k]))
}

/// The steps for the first `n` peers, one peer after the other.
pub open spec fn introductions(
    info: Map<Seq<char>, (Seq<char>, Seq<char>)>,
    peers: Seq<PeerView>,
    n: int,
) -> Seq<BootstrapView>
    decreases n,
{
    if n <= 0 {
        Seq::empty()
    } else {
        introductions(info, peers, n - 1) + introductions_to(info, peers[n - 1])
    }
}

/// The step that introduces `other` to `peer`.
fn introduce(state: &PeerState, peer: &str, other: &str) -> (r: BootstrapStep)
    ensures
        r@ == introduction(state@.peer_info, peer@, other@),
{
    match state.peer_info.get(other) {
        Some(told) => {
            let mut command = "peer|".to_owned();
            command.push_str(told.0.as_str());
            command.push_str("|");
            command.push_str(told.1.as_str());
            let mut note = "sent bootstrap: ".to_owned();
            note.push_str(peer);
            note.push_str(" -> ");
            note.push_str(other);
            note.push_str(" (");
            note.push_str(told.1.as_str());
            note.push_str(")");
            BootstrapStep::Send {
                peer: peer.to_owned(),
                key: client::command_key_of(peer),
                command,
                note,
            }
        },
        None => {
            let mut warning = "bootstrap peer '".to_owned();
            warning.push_str(other);
            warning.push_str("' not found in peer_info for '");
            warning.push_str(peer);
            warning.push_str("'");
            BootstrapStep::Unknown { warning }
        },
    }
}

/// The steps that introduce the peers to each other, peer by peer in the order of the configuration.
pub fn send_bootstrap_commands(peers: &Vec<PeerConfig>, state: &PeerState) -> (r: Vec<
    BootstrapStep,
>)
    ensures
        steps_view(r@) == introductions(
            state@.peer_info,
            config::peers_view(peers@),
            peers@.len() as int,
        ),
{
    let mut steps: Vec<BootstrapStep> = Vec::new();
    let mut i: usize = 0;
    let ghost views = config::peers_view(peers@);
    let ghost info = state@.peer_info;
    assert(steps_view(steps@) =~= Seq::empty());
    while i < peers.len()
        invariant
            i <= peers@.len(),
            views == config::peers_view(peers@),
            info == state@.peer_info,
            steps_view(steps@) == introductions(info, views, i as int),
        decreases peers@.len() - i,
    {
        let mut k: usize = 0;
        let ghost done = steps_view(steps@);
        let ghost wanted = introductions_to(info, views[i as int]);
        assert(done + wanted.take(0) =~= done);
        while k < peers[i].bootstrap.len()
            invariant
                i < peers@.len(),
                k <= peers@[i as int].bootstrap@.len(),
                views == config::peers_view(peers@),
                info == state@.peer_info,
                wanted == introductions_to(info, views[i as int]),
                steps_view(steps@) == done + wanted.take(k as int),
            decreases peers@[i as int].bootstrap@.len() - k,
        {
            let ghost before = steps@;
            let step = introduce(state, peers[i].name.as_str(), peers[i].bootstrap[k].as_str());
            let ghost entry = step@;
            assert(entry == wanted[k as int]);
            steps.push(step);
            assert(steps_view(steps@) =~= steps_view(before).push(entry));
            assert(wanted.take(k + 1) =~= wanted.take(k as int).push(wanted[k as int]));
            assert(steps_view(steps@) =~= done + wanted.take(k + 1));
            k = k + 1;
        }
        assert(wanted.take(wanted.len() as int) =~= wanted);
        i = i + 1;
    }
    steps
}

/// The message where a bootstrap command could not be sent.
pub fn bootstrap_failure(peer: &str) -> (r: String)
    ensures
        r@ == "failed to send bootstrap command to "@ + peer@,
{
    let mut out = "failed to send bootstrap command to ".to_owned();
    out.push_str(peer);
    out
}

/// A peer understands the command that introduces another one to it: identity and address arrive as
/// they were told, where the identity has no bar in it.
pub proof fn introductions_are_understood(identity: Seq<char>, address: Seq<char>)
    requires
        !identity.contains('|'),
    ensures
        client::command_meaning(bootstrap_command(identity, address)) == CommandMeaning::Peer(
            address,
        ),
        client::command_vlad(bootstrap_command(identity, address)) == Some(identity),
{
    reveal_strlit("peer|");
    reveal_strlit("peer");
    reveal_strlit("|");
    client::peer_is_understood(identity, address);
    assert(bootstrap_command(identity, address) =~= "peer"@ + seq!['|'] + (identity + seq!['|']
        + address));
}

/// Where all addresses are known every step sends a command.
pub proof fn known_addresses_are_sent(
    info: Map<Seq<char>, (Seq<char>, Seq<char>)>,
    peers: Seq<PeerView>,
    n: int,
    k: int,
)
    requires
        addresses_known(peers, info),
        0 <= n <= peers.len(),
        0 <= k < introductions(info, peers, n).len(),
    ensures
        introductions(info, peers, n)[k] is Send,
    decreases n,
{
    if n > 0 {
        let front = introductions(info, peers, n - 1);
        if k < front.len() {
            known_addresses_are_sent(info, peers, n - 1, k);
        } else {
            assert(info.contains_key(peers[n - 1].bootstrap[k - front.len()]));
        }
    }
}

/// How many peers the first `n` peers bootstrap from, all together.
pub open spec fn bootstrap_count(peers: Seq<PeerView>, n: int) -> int
    decreases n,
{
    if n <= 0 {
        0
    } else {
        bootstrap_count(peers, n - 1) + peers[n - 1].bootstrap.len()
    }
}

/// There is one step for every peer that some peer bootstraps from, and no other.
pub proof fn steps_are_as_many_as_introductions(
    info: Map<Seq<char>, (Seq<char>, Seq<char>)>,
    peers: Seq<PeerView>,
    n: int,
)
    requires
        0 <= n <= peers.len(),
    ensures
        introductions(info, peers, n).len() == bootstrap_count(peers, n),
    decreases n,
{
    if n > 0 {
        steps_are_as_many_as_introductions(info, peers, n - 1);
    }
}

/// Every peer is introduced to everyone who bootstraps from it, whatever is known of the others: its
/// identity and its address are sent to the one who bootstraps, under the key of their commands, and
/// where they are not known a warning names both.
pub proof fn everyone_is_introduced(
    info: Map<Seq<char>, (Seq<char>, Seq<char>)>,
    peers: Seq<PeerView>,
    i: int,
    k: int,
)
    requires
        0 <= i < peers.len(),
        0 <= k < peers[i].bootstrap.len(),
    ensures
        ({
            let steps = introductions(info, peers, peers.len() as int);
            let at = bootstrap_count(peers, i) + k;
            let other = peers[i].bootstrap[k];
            &&& 0 <= at < steps.len()
            &&& info.contains_key(other) ==> (steps[at] matches BootstrapView::Send {
                peer,
                key,
                command,
                note,
            } && peer == peers[i].name && key == peers[i].name + "_command"@ && command == "peer|"@
                + info[other].0 + "|"@ + info[other].1 && text::occurs(other, note))
            &&& !info.contains_key(other) ==> (steps[at] matches BootstrapView::Unknown { warning }
                && text::occurs(other, warning) && text::occurs(peers[i].name, warning))
        }),
{
    let other = peers[i].bootstrap[k];
    let peer = peers[i].name;
    introduction_stands_at(info, peers, peers.len() as int, i, k);
    steps_are_as_many_as_introductions(info, peers, peers.len() as int);
    let head = "bootstrap peer '"@;
    let middle = "' not found in peer_info for '"@;
    text::parts_occur(head, other, middle + peer + "'"@);
    assert(head + other + (middle + peer + "'"@) =~= head + other + middle + peer + "'"@);
    text::parts_occur(head + other + middle, peer, "'"@);
    if info.contains_key(other) {
        let begin = "sent bootstrap: "@ + peer + " -> "@;
        let end = " ("@ + info[other].1 + ")"@;
        text::parts_occur(begin, other, end);
        assert(begin + other + end =~= "sent bootstrap: "@ + peer + " -> "@ + other + " ("@
            + info[other].1 + ")"@);
    }
}

proof fn introduction_stands_at(
    info: Map<Seq<char>, (Seq<char>, Seq<char>)>,
    peers: Seq<PeerView>,
    n: int,
    i: int,
    k: int,
)
    requires
        0 <= i < n <= peers.len(),
        0 <= k < peers[i].bootstrap.len(),
    ensures
        0 <= bootstrap_count(peers, i) + k < introductions(info, peers, n).len(),
        introductions(info, peers, n)[bootstrap_count(peers, i) + k] == introduction(
            info,
            peers[i].name,
            peers[i].bootstrap[k],
        ),
    decreases n,
{
    steps_are_as_many_as_introductions(info, peers, i);
    let front = introductions(info, peers, n - 1);
    let at = bootstrap_count(peers, i) + k;
    if i < n - 1 {
        introduction_stands_at(info, peers, n - 1, i, k);
        assert(introductions(info, peers, n)[at] == front[at]);
    } else {
        assert(at - front.len() == k);
        assert(introductions(info, peers, n)[at] == introductions_to(info, peers[n - 1])[k]);
    }
}

/// Nobody has to be waited for once every peer that some peer bootstraps from has told its address,
/// and only then.
pub proof fn addresses_are_known_when_all_are(
    peers: Seq<PeerView>,
    info: Map<Seq<char>, (Seq<char>, Seq<char>)>,
)
    ensures
        addresses_known(peers, info) <==> forall|k: int|
            0 <= k < introductions(info, peers, peers.len() as int).len() ==> #[trigger]
                introductions(info, peers, peers.len() as int)[k] is Send,
{
    let steps = introductions(info, peers, peers.len() as int);
    if addresses_known(peers, info) {
        assert forall|k: int| 0 <= k < steps.len() implies #[trigger] steps[k] is Send by {
            known_addresses_are_sent(info, peers, peers.len() as int, k);
        }
    } else {
        let (i, k) = choose|i: int, k: int|
            0 <= i < peers.len() && 0 <= k < peers[i].bootstrap.len() && !info.contains_key(
                #[trigger] peers[i].bootstrap[k],
            );
        introduction_stands_at(info, peers, peers.len() as int, i, k);
        assert(!(steps[bootstrap_count(peers, i) + k] is Send));
    }
}

// ---------------------------------------------------------------------------------------------
// Shutting down
// ---------------------------------------------------------------------------------------------
/// The keys under which the peers are told to shut down.
pub open spec fn command_keys(peers: Seq<Seq<char>>) -> Seq<Seq<char>> {
    Seq::new(peers.len(), |i: int| client::command_key(peers[i]))
}

/// The keys under which `shutdown` is pushed, one for each peer.
pub fn shutdown_all_peers(peer_names: &Vec<PeerName>) -> (r: Vec<String>)
    ensures
        text::texts(r@) == command_keys(config::peer_names(peer_names@)),
{
    let mut keys: Vec<String> = Vec::new();
    let mut i: usize = 0;
    let ghost wanted = command_keys(config::peer_names(peer_names@));
    while i < peer_names.len()
        invariant
            i <= peer_names@.len(),
            wanted == command_keys(config::peer_names(peer_names@)),
            text::texts(keys@) == wanted.take(i as int),
        decreases peer_names@.len() - i,
    {
        let ghost before = keys@;
        let key = client::command_key_of(peer_names[i].as_str());
        let ghost entry = key@;
        keys.push(key);
        assert(text::texts(keys@) =~= text::texts(before).push(entry));
        i = i + 1;
    }
    assert(wanted.take(wanted.len() as int) =~= wanted);
    keys
}

/// Every peer is told to shut down, each once and under the key of its commands.
pub proof fn everyone_is_told_to_shut_down(peers: Seq<Seq<char>>, i: int)
    requires
        0 <= i < peers.len(),
    ensures
        command_keys(peers).len() == peers.len(),
        command_keys(peers)[i] == peers[i] + "_command"@,
{
}

/// The command that shuts a peer down.
pub fn shutdown_command() -> (r: &'static str)
    ensures
        r@ == "shutdown"@,
{
    "shutdown"
}

/// A peer understands the command that shuts it down.
pub proof fn shutdown_is_understood()
    ensures
        client::command_meaning("shutdown"@) == CommandMeaning::Shutdown,
{
    reveal_strlit("connect");
    reveal_strlit("disconnect");
    reveal_strlit("shutdown");
    text::find_is_unique("shutdown"@, '|', 8);
    assert("shutdown"@.take(8) =~= "shutdown"@);
    assert("shutdown"@[0] != "connect"@[0]);
    assert("shutdown"@[0] != "disconnect"@[0]);
}

} // verus!
