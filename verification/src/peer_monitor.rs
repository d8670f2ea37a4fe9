//! The orchestrator's view of its peers: their statuses, their addresses and their log entries.
use vstd::prelude::*;

use crate::client;
use crate::config;
use crate::config::LogLevel;
use crate::text;
use crate::text_map::TextMap;

verus! {

// ---------------------------------------------------------------------------------------------
// Events and state
// ---------------------------------------------------------------------------------------------
/// Something that a peer did.
#[derive(Debug)]
pub enum PeerEvent {
    StatusChange { peer: String, status: String },
    LogEntry { peer: String, level: String, message: String },
}

/// What an event says.
pub enum EventView {
    StatusChange { peer: Seq<char>, status: Seq<char> },
    LogEntry { peer: Seq<char>, level: Seq<char>, message: Seq<char> },
}

impl View for PeerEvent {
    type V = EventView;

    open spec fn view(&self) -> EventView {
        match self {
            PeerEvent::StatusChange { peer, status } => EventView::StatusChange {
                peer: peer@,
                status: status@,
            },
            PeerEvent::LogEntry { peer, level, message } => EventView::LogEntry {
                peer: peer@,
                level: level@,
                message: message@,
            },
        }
    }
}

impl Clone for PeerEvent {
    fn clone(&self) -> (r: Self)
        ensures
            r@ == self@,
    {
        match self {
            PeerEvent::StatusChange { peer, status } => PeerEvent::StatusChange {
                peer: peer.clone(),
                status: status.clone(),
            },
            PeerEvent::LogEntry { peer, level, message } => PeerEvent::LogEntry {
                peer: peer.clone(),
                level: level.clone(),
                message: message.clone(),
            },
        }
    }
}

/// What is known of the peers.
pub struct PeerState {
    /// The current status of each peer.
    pub statuses: TextMap<String>,
    /// The identity and the address of each peer that has told them.
    pub peer_info: TextMap<(String, String)>,
    /// The log entries of all peers: peer, level and message.
    pub logs: Vec<(String, String, String)>,
}

/// What is known of the peers, as texts.
#[verifier::ext_equal]
pub struct StateView {
    pub statuses: Map<Seq<char>, Seq<char>>,
    pub peer_info: Map<Seq<char>, (Seq<char>, Seq<char>)>,
    pub logs: Seq<(Seq<char>, Seq<char>, Seq<char>)>,
}

/// Pairs of strings by their texts.
pub open spec fn pair_values(m: Map<Seq<char>, (String, String)>) -> Map<
    Seq<char>,
    (Seq<char>, Seq<char>),
> {
    m.map_values(|p: (String, String)| (p.0@, p.1@))
}

/// Log entries by their texts.
pub open spec fn log_texts(logs: Seq<(String, String, String)>) -> Seq<
    (Seq<char>, Seq<char>, Seq<char>),
> {
    Seq::new(logs.len(), |i: int| (logs[i].0@, logs[i].1@, logs[i].2@))
}

impl View for PeerState {
    type V = StateView;

    open spec fn view(&self) -> StateView {
        StateView {
            statuses: config::text_values(self.statuses@),
            peer_info: pair_values(self.peer_info@),
            logs: log_texts(self.logs@),
        }
    }
}

impl PeerState {
    /// Nothing is known yet.
    pub fn new() -> (r: Self)
        ensures
            r@.statuses == Map::<Seq<char>, Seq<char>>::empty(),
            r@.peer_info == Map::<Seq<char>, (Seq<char>, Seq<char>)>::empty(),
            r@.logs == Seq::<(Seq<char>, Seq<char>, Seq<char>)>::empty(),
    {
        let state = PeerState {
            statuses: TextMap::new(),
            peer_info: TextMap::new(),
            logs: Vec::new(),
        };
        assert(state@.statuses =~= Map::empty());
        assert(state@.peer_info =~= Map::empty());
        assert(state@.logs =~= Seq::empty());
        state
    }
}

// ---------------------------------------------------------------------------------------------
// Statuses
// ---------------------------------------------------------------------------------------------
/// The identity and the address in what a peer has set: the second part and everything after it,
/// where the first part says that the peer has started and there are that many parts.
pub open spec fn told_address(raw: Seq<char>) -> Option<(Seq<char>, Seq<char>)> {
    match text::split_at_first(raw, '|') {
        Some((word, rest)) if word == "started"@ => text::split_at_first(rest, '|'),
        _ => None,
    }
}

/// What is known after a peer's status has been read, and the status that was read last.
pub open spec fn after_status(
    state: StateView,
    last: Option<Seq<char>>,
    peer: Seq<char>,
    raw: Seq<char>,
) -> (StateView, Option<Seq<char>>) {
    if last == Some(raw) {
        (state, last)
    } else {
        (
            StateView {
                statuses: state.statuses.insert(peer, text::first_part(raw, '|')),
                peer_info: match told_address(raw) {
                    Some(address) => state.peer_info.insert(peer, address),
                    None => state.peer_info,
                },
                logs: state.logs,
            },
            Some(raw),
        )
    }
}

/// The event that a status gives rise to: none where it has not changed.
pub open spec fn status_event(
    last: Option<Seq<char>>,
    peer: Seq<char>,
    raw: Seq<char>,
) -> Option<EventView> {
    if last == Some(raw) {
        None
    } else {
        Some(EventView::StatusChange { peer, status: text::first_part(raw, '|') })
    }
}

/// What an optional event says.
pub open spec fn option_event(event: Option<PeerEvent>) -> Option<EventView> {
    match event {
        Some(event) => Some(event@),
        None => None,
    }
}

/// Takes note of what a peer has set as its status.
pub fn process_status(
    peer_name: &str,
    raw_status: &str,
    last_status: &mut Option<String>,
    state: &mut PeerState,
) -> (r: Option<PeerEvent>)
    ensures
        (final(state)@, config::option_text(*final(last_status))) == after_status(
            old(state)@,
            config::option_text(*old(last_status)),
            peer_name@,
            raw_status@,
        ),
        option_event(r) == status_event(
            config::option_text(*old(last_status)),
            peer_name@,
            raw_status@,
        ),
{
    let unchanged = match last_status {
        Some(last) => text::same_text(last.as_str(), raw_status),
        None => false,
    };
    if unchanged {
        return None;
    }
    let ghost before = state@;
    proof {
        reveal_strlit("started");
        text::find_is_first(raw_status@, '|');
        assert(raw_status@.take(raw_status@.len() as int) =~= raw_status@);
    }
    *last_status = Some(raw_status.to_owned());
    let (word, rest) = match text::split_once(raw_status, '|') {
        Some((word, rest)) => (word, Some(rest)),
        None => (raw_status.to_owned(), None),
    };
    assert(word@ == text::first_part(raw_status@, '|'));
    let status = word.clone();
    state.statuses.insert(peer_name.to_owned(), word);
    assert(state@.statuses =~= before.statuses.insert(peer_name@, status@));
    assert(state@.peer_info == before.peer_info);
    match rest {
        Some(rest) => {
            if text::same_text(status.as_str(), "started") {
                match text::split_once(rest.as_str(), '|') {
                    Some((identity, address)) => {
                        state.peer_info.insert(peer_name.to_owned(), (identity, address));
                        assert(state@.peer_info =~= before.peer_info.insert(
                            peer_name@,
                            (identity@, address@),
                        ));
                    },
                    None => {},
                }
            }
        },
        None => {},
    }
    Some(PeerEvent::StatusChange { peer: peer_name.to_owned(), status })
}

/// Reading the same status again changes nothing and gives rise to no event.
pub proof fn repeated_status_changes_nothing(
    state: StateView,
    last: Option<Seq<char>>,
    peer: Seq<char>,
    raw: Seq<char>,
)
    ensures
        ({
            let (next, seen) = after_status(state, last, peer, raw);
            &&& after_status(next, seen, peer, raw) == (next, seen)
            &&& status_event(seen, peer, raw) is None
        }),
{
}

/// A peer's status changes nothing of what is known of another peer.
pub proof fn other_peers_stay(
    state: StateView,
    last: Option<Seq<char>>,
    peer: Seq<char>,
    raw: Seq<char>,
    other: Seq<char>,
)
    requires
        other != peer,
    ensures
        ({
            let next = after_status(state, last, peer, raw).0;
            &&& next.statuses.contains_key(other) == state.statuses.contains_key(other)
            &&& next.statuses.contains_key(other) ==> next.statuses[other] == state.statuses[other]
            &&& next.peer_info.contains_key(other) == state.peer_info.contains_key(other)
            &&& next.peer_info.contains_key(other) ==> next.peer_info[other]
                == state.peer_info[other]
            &&& next.logs == state.logs
        }),
{
}

/// A peer that tells that it has started, who it is and where, is known by exactly these, where its
/// identity has no bar in it.
pub proof fn told_address_is_kept(
    state: StateView,
    last: Option<Seq<char>>,
    peer: Seq<char>,
    identity: Seq<char>,
    address: Seq<char>,
)
    requires
        !identity.contains('|'),
        last != Some("started"@ + seq!['|'] + (identity + seq!['|'] + address)),
    ensures
        ({
            let raw = "started"@ + seq!['|'] + (identity + seq!['|'] + address);
            let next = after_status(state, last, peer, raw).0;
            &&& next.statuses[peer] == "started"@
            &&& next.peer_info.contains_key(peer)
            &&& next.peer_info[peer] == (identity, address)
        }),
{
    reveal_strlit("started");
    let rest = identity + seq!['|'] + address;
    let raw = "started"@ + seq!['|'] + rest;
    text::find_is_unique(raw, '|', 7);
    assert(raw.take(7) =~= "started"@);
    assert(raw.skip(8) =~= rest);
    assert forall|k: int| 0 <= k < identity.len() implies rest[k] != '|' by {
        assert(identity.contains(identity[k]));
    }
    text::find_is_unique(rest, '|', identity.len() as int);
    assert(rest.take(identity.len() as int) =~= identity);
    assert(rest.skip(identity.len() as int + 1) =~= address);
}

/// A status that is read for the first time is told and known: the whole of it where it has no bar,
/// and otherwise what stands before the bar. It is the one that is compared with from then on.
pub proof fn new_statuses_are_known(
    state: StateView,
    last: Option<Seq<char>>,
    peer: Seq<char>,
    word: Seq<char>,
    rest: Seq<char>,
    raw: Seq<char>,
)
    requires
        !word.contains('|'),
        raw == word || raw == word + seq!['|'] + rest,
        last != Some(raw),
    ensures
        ({
            let (next, seen) = after_status(state, last, peer, raw);
            &&& next.statuses == state.statuses.insert(peer, word)
            &&& next.logs == state.logs
            &&& seen == Some(raw)
            &&& status_event(last, peer, raw) == Some(
                EventView::StatusChange { peer, status: word },
            )
            &&& word != "started"@ ==> next.peer_info == state.peer_info
            &&& raw == word ==> next.peer_info == state.peer_info
            &&& !rest.contains('|') ==> next.peer_info == state.peer_info
        }),
{
    text::find_is_first(raw, '|');
    if raw == word {
        if text::find(raw, '|') < raw.len() {
            assert(word.contains(raw[text::find(raw, '|')]));
        }
        assert(raw.take(raw.len() as int) =~= raw);
    } else {
        assert forall|k: int| 0 <= k < word.len() implies raw[k] != '|' by {
            assert(word.contains(word[k]));
        }
        text::find_is_unique(raw, '|', word.len() as int);
        assert(raw.take(word.len() as int) =~= word);
        assert(raw.skip(word.len() as int + 1) =~= rest);
        text::find_is_first(rest, '|');
    }
}

/// The order in which two peers report makes no difference to what is known of them.
pub proof fn reports_of_peers_commute(
    state: StateView,
    last: Option<Seq<char>>,
    peer: Seq<char>,
    raw: Seq<char>,
    other_last: Option<Seq<char>>,
    other: Seq<char>,
    other_raw: Seq<char>,
)
    requires
        peer != other,
    ensures
        after_status(
            after_status(state, last, peer, raw).0,
            other_last,
            other,
            other_raw,
        ).0 == after_status(
            after_status(state, other_last, other, other_raw).0,
            last,
            peer,
            raw,
        ).0,
{
    let a = after_status(after_status(state, last, peer, raw).0, other_last, other, other_raw).0;
    let b = after_status(after_status(state, other_last, other, other_raw).0, last, peer, raw).0;
    assert(a.statuses =~= b.statuses);
    assert(a.peer_info =~= b.peer_info);
}

// ---------------------------------------------------------------------------------------------
// Log entries
// ---------------------------------------------------------------------------------------------
/// The level that a word stands for, in small or capital letters; any other word stands for the
/// lowest level.
pub open spec fn level_of_word(word: Seq<char>) -> LogLevel {
    let lower = text::ascii_lowered(word);
    if lower == "error"@ {
        LogLevel::Error
    } else if lower == "warn"@ {
        LogLevel::Warn
    } else if lower == "info"@ {
        LogLevel::Info
    } else if lower == "debug"@ {
        LogLevel::Debug
    } else {
        LogLevel::Trace
    }
}

/// The level that a word stands for.
pub fn parse_level(word: &str) -> (r: LogLevel)
    ensures
        r == level_of_word(word@),
{
    let lower = text::ascii_lowercase(word);
    if text::same_text(lower.as_str(), "error") {
        LogLevel::Error
    } else if text::same_text(lower.as_str(), "warn") {
        LogLevel::Warn
    } else if text::same_text(lower.as_str(), "info") {
        LogLevel::Info
    } else if text::same_text(lower.as_str(), "debug") {
        LogLevel::Debug
    } else {
        LogLevel::Trace
    }
}

/// What is known after a log entry of a peer has been read; an entry without a bar is passed over.
pub open spec fn after_log(state: StateView, peer: Seq<char>, entry: Seq<char>) -> StateView {
    match text::split_at_first(entry, '|') {
        Some((word, message)) => StateView {
            statuses: state.statuses,
            peer_info: state.peer_info,
            logs: state.logs.push((peer, level_of_word(word).word(), message)),
        },
        None => state,
    }
}

/// The event that a log entry gives rise to.
pub open spec fn log_event(peer: Seq<char>, entry: Seq<char>) -> Option<EventView> {
    match text::split_at_first(entry, '|') {
        Some((word, message)) => Some(
            EventView::LogEntry { peer, level: level_of_word(word).word(), message },
        ),
        None => None,
    }
}

/// Takes note of a log entry of a peer; the level is that at which it is to be logged here.
pub fn process_log(peer_name: &str, entry: &str, state: &mut PeerState) -> (r: Option<
    (LogLevel, PeerEvent),
>)
    ensures
        final(state)@ == after_log(old(state)@, peer_name@, entry@),
        match r {
            Some((level, event)) => Some(event@) == log_event(peer_name@, entry@)
                && level == level_of_word(text::first_part(entry@, '|')),
            None => log_event(peer_name@, entry@) is None,
        },
{
    let ghost before = state.logs@;
    match text::split_once(entry, '|') {
        Some((word, message)) => {
            let level = parse_level(word.as_str());
            let event = PeerEvent::LogEntry {
                peer: peer_name.to_owned(),
                level: level.as_filter_str().to_owned(),
                message: message.clone(),
            };
            state.logs.push((peer_name.to_owned(), level.as_filter_str().to_owned(), message));
            assert(log_texts(state.logs@) =~= log_texts(before).push(
                (peer_name@, level.word(), message@),
            ));
            Some((level, event))
        },
        None => None,
    }
}

/// A log entry that a peer sends arrives here with its level and exactly its message, except that
/// the lowest level arrives as the one above it, and an event without a message under its own name.
pub proof fn sent_entries_are_understood(
    state: StateView,
    level: LogLevel,
    peer: Seq<char>,
    message: Seq<char>,
    event: Seq<char>,
)
    ensures
        after_log(state, peer, client::entry_text(level, message, event)).logs == state.logs.push(
            (peer, client::entry_level(level), client::entry_message(message, event)),
        ),
{
    reveal_strlit("error");
    reveal_strlit("warn");
    reveal_strlit("info");
    reveal_strlit("debug");
    reveal_strlit("trace");
    reveal_strlit("|");
    let word = client::entry_level(level);
    let sent = client::entry_message(message, event);
    let entry = client::entry_text(level, message, event);
    text::find_is_unique(entry, '|', word.len() as int);
    assert(entry.take(word.len() as int) =~= word);
    assert(entry.skip(word.len() as int + 1) =~= sent);
    assert(text::ascii_lowered(word) =~= word);
    assert(level_of_word(word).word() == word) by {
        config::level_words_differ(level, LogLevel::Trace);
        assert("error"@[0] != "warn"@[0]);
        assert("error"@[0] != "info"@[0]);
        assert("error"@[0] != "debug"@[0]);
        assert("warn"@[0] != "info"@[0]);
        assert("warn"@[0] != "debug"@[0]);
        assert("info"@[0] != "debug"@[0]);
    }
}

/// A log entry is added behind those that are there, with the whole message behind its first bar;
/// nothing else that is known changes, and what is told is what is kept.
pub proof fn log_entries_are_kept_whole(
    state: StateView,
    peer: Seq<char>,
    word: Seq<char>,
    message: Seq<char>,
)
    requires
        !word.contains('|'),
    ensures
        ({
            let next = after_log(state, peer, word + seq!['|'] + message);
            let level = level_of_word(word).word();
            &&& next.logs == state.logs.push((peer, level, message))
            &&& next.statuses == state.statuses
            &&& next.peer_info == state.peer_info
            &&& log_event(peer, word + seq!['|'] + message) == Some(
                EventView::LogEntry { peer, level, message },
            )
        }),
        after_log(state, peer, word) == state,
        log_event(peer, word) is None,
{
    let entry = word + seq!['|'] + message;
    assert forall|k: int| 0 <= k < word.len() implies entry[k] != '|' by {
        assert(word.contains(word[k]));
    }
    text::find_is_unique(entry, '|', word.len() as int);
    assert(entry.take(word.len() as int) =~= word);
    assert(entry.skip(word.len() as int + 1) =~= message);
    text::find_is_first(word, '|');
    if text::find(word, '|') < word.len() {
        assert(word.contains(word[text::find(word, '|')]));
    }
}

/// Every level is read from its own word, in capital letters or not, and every other word is read
/// as the lowest level.
pub proof fn levels_are_read_from_their_words(level: LogLevel, word: Seq<char>)
    ensures
        text::ascii_lowered(word) == level.word() ==> level_of_word(word) == level,
        level_of_word(word) != LogLevel::Trace ==> text::ascii_lowered(word) == level_of_word(
            word,
        ).word(),
{
    config::level_words_differ(level, LogLevel::Error);
    config::level_words_differ(level, LogLevel::Warn);
    config::level_words_differ(level, LogLevel::Info);
    config::level_words_differ(level, LogLevel::Debug);
}

// ---------------------------------------------------------------------------------------------
// The monitor of one peer
// ---------------------------------------------------------------------------------------------
/// The channel on which changes of a peer's status are announced.
pub open spec fn status_channel(peer: Seq<char>) -> Seq<char> {
    "__keyspace@0__:"@ + client::status_key(peer)
}

/// The channel on which changes of a peer's status are announced.
pub fn status_channel_of(peer_name: &str) -> (r: String)
    ensures
        r@ == status_channel(peer_name@),
{
    let mut out = "__keyspace@0__:".to_owned();
    out.push_str(client::status_key_of(peer_name).as_str());
    out
}

/// What a monitor waits for.
pub enum MonitorEvent {
    /// The monitor is no longer wanted.
    Cancelled,
    /// A change of the peer's status key was announced, by this operation.
    Announced(String),
    /// There will be no more announcements.
    Ended,
    /// The status key was read.
    Read(Option<String>),
    /// The next log entry was taken.
    Logged(Option<String>),
}

/// What a monitor does next.
pub enum MonitorAction {
    /// Ends.
    Stop,
    /// Ends, after telling why.
    StopWith(String),
    /// Reads the status key.
    ReadStatus,
    /// Waits for the next event.
    Wait,
    /// Passes an event on, then waits.
    Tell(PeerEvent),
    /// Logs a message of the peer at a level, passes an event on, then waits.
    LogAndTell(LogLevel, PeerEvent),
}

/// The monitor of one peer.
pub struct PeerMonitor {
    peer_name: String,
    last_status: Option<String>,
}

impl PeerMonitor {
    /// The name of the peer.
    pub closed spec fn peer(&self) -> Seq<char> {
        self.peer_name@
    }

    /// The status that was read last.
    pub closed spec fn last(&self) -> Option<Seq<char>> {
        config::option_text(self.last_status)
    }

    /// A monitor that has read nothing yet.
    pub fn new(peer_name: &str) -> (r: Self)
        ensures
            r.peer() == peer_name@,
            r.last() is None,
    {
        PeerMonitor { peer_name: peer_name.to_owned(), last_status: None }
    }

    /// Takes note of an event. Only the announcement of a `set` makes the monitor read the status
    /// key; a status or a log entry that is missing is passed over.
    pub fn step(&mut self, event: MonitorEvent, state: &mut PeerState) -> (r: MonitorAction)
        ensures
            final(self).peer() == old(self).peer(),
            match event {
                MonitorEvent::Read(Some(raw)) => {
                    &&& (final(state)@, final(self).last()) == after_status(
                        old(state)@,
                        old(self).last(),
                        old(self).peer(),
                        raw@,
                    )
                    &&& match status_event(old(self).last(), old(self).peer(), raw@) {
                        Some(e) => r matches MonitorAction::Tell(told) && told@ == e,
                        None => r is Wait,
                    }
                },
                MonitorEvent::Logged(Some(entry)) => {
                    &&& final(self).last() == old(self).last()
                    &&& final(state)@ == after_log(old(state)@, old(self).peer(), entry@)
                    &&& match log_event(old(self).peer(), entry@) {
                        Some(e) => r matches MonitorAction::LogAndTell(level, told) && told@ == e
                            && level == level_of_word(text::first_part(entry@, '|')),
                        None => r is Wait,
                    }
                },
                other => {
                    &&& final(self).last() == old(self).last()
                    &&& final(state)@ == old(state)@
                    &&& match other {
                        MonitorEvent::Cancelled => r is Stop,
                        MonitorEvent::Announced(operation) => if operation@ == "set"@ {
                            r is ReadStatus
                        } else {
                            r is Wait
                        },
                        MonitorEvent::Ended => r matches MonitorAction::StopWith(why) && why@
                            == "keyspace subscription stream ended"@,
                        _ => r is Wait,
                    }
                },
            },
    {
        match event {
            MonitorEvent::Cancelled => MonitorAction::Stop,
            MonitorEvent::Announced(operation) => {
                if text::same_text(operation.as_str(), "set") {
                    MonitorAction::ReadStatus
                } else {
                    MonitorAction::Wait
                }
            },
            MonitorEvent::Ended => MonitorAction::StopWith(
                "keyspace subscription stream ended".to_owned(),
            ),
            MonitorEvent::Read(Some(raw)) => {
                let told = process_status(
                    self.peer_name.as_str(),
                    raw.as_str(),
                    &mut self.last_status,
                    state,
                );
                match told {
                    Some(e) => MonitorAction::Tell(e),
                    None => MonitorAction::Wait,
                }
            },
            MonitorEvent::Logged(Some(entry)) => {
                match process_log(self.peer_name.as_str(), entry.as_str(), state) {
                    Some((level, e)) => MonitorAction::LogAndTell(level, e),
                    None => MonitorAction::Wait,
                }
            },
            _ => MonitorAction::Wait,
        }
    }
}

} // verus!
