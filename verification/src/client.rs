//! The peer's side of the protocol: the commands it receives, the keys it uses and the log entries
//! it sends.
use vstd::prelude::*;

use crate::config;
use crate::config::LogLevel;
use crate::outside;
use crate::text;

verus! {

// ---------------------------------------------------------------------------------------------
// Commands
// ---------------------------------------------------------------------------------------------
/// A command from the orchestrator.
#[derive(Debug, Clone, PartialEq)]
pub enum Command {
    Connect,
    Disconnect,
    Shutdown,
    Restart { delay_secs: u64 },
    Push { peer: String, message: String },
    Pull,
    RotateKey,
    Track { peer: String },
    Peer { multiaddr: String },
    Test(String),
}

/// What a command says.
pub enum CommandMeaning {
    Connect,
    Disconnect,
    Shutdown,
    Restart(u64),
    Push(Seq<char>, Seq<char>),
    Pull,
    RotateKey,
    Track(Seq<char>),
    Peer(Seq<char>),
    Test(Seq<char>),
}

impl View for Command {
    type V = CommandMeaning;

    open spec fn view(&self) -> CommandMeaning {
        match self {
            Command::Connect => CommandMeaning::Connect,
            Command::Disconnect => CommandMeaning::Disconnect,
            Command::Shutdown => CommandMeaning::Shutdown,
            Command::Restart { delay_secs } => CommandMeaning::Restart(*delay_secs),
            Command::Push { peer, message } => CommandMeaning::Push(peer@, message@),
            Command::Pull => CommandMeaning::Pull,
            Command::RotateKey => CommandMeaning::RotateKey,
            Command::Track { peer } => CommandMeaning::Track(peer@),
            Command::Peer { multiaddr } => CommandMeaning::Peer(multiaddr@),
            Command::Test(raw) => CommandMeaning::Test(raw@),
        }
    }
}

/// What stands after the first bar of a raw command, if it has one.
pub open spec fn command_argument(raw: Seq<char>) -> Option<Seq<char>> {
    match text::split_at_first(raw, '|') {
        Some((_, rest)) => Some(rest),
        None => None,
    }
}

/// The address in the argument of a `peer` command: what stands after its first bar, which ends the
/// identity, or all of it where it has no bar.
pub open spec fn address_part(argument: Seq<char>) -> Seq<char> {
    match text::split_at_first(argument, '|') {
        Some((_, address)) => address,
        None => argument,
    }
}

/// What a raw command means whose word needs an argument. One that is not known, or whose argument
/// cannot be used, is kept whole.
pub open spec fn argument_meaning(
    raw: Seq<char>,
    word: Seq<char>,
    argument: Seq<char>,
) -> CommandMeaning {
    if word == "restart"@ {
        match text::parsed_u64(argument) {
            Some(delay) => CommandMeaning::Restart(delay),
            None => CommandMeaning::Test(raw),
        }
    } else if word == "push"@ {
        match text::split_at_first(argument, '|') {
            Some((peer, message)) => CommandMeaning::Push(peer, message),
            None => CommandMeaning::Test(raw),
        }
    } else if word == "track"@ {
        CommandMeaning::Track(argument)
    } else if word == "peer"@ {
        CommandMeaning::Peer(address_part(argument))
    } else {
        CommandMeaning::Test(raw)
    }
}

/// What a raw command means. One that is not known, or whose argument cannot be used, is kept whole
/// for the test to make sense of.
pub open spec fn command_meaning(raw: Seq<char>) -> CommandMeaning {
    let word = text::first_part(raw, '|');
    if word == "connect"@ {
        CommandMeaning::Connect
    } else if word == "disconnect"@ {
        CommandMeaning::Disconnect
    } else if word == "shutdown"@ {
        CommandMeaning::Shutdown
    } else if word == "pull"@ {
        CommandMeaning::Pull
    } else if word == "rotate-key"@ {
        CommandMeaning::RotateKey
    } else {
        match command_argument(raw) {
            Some(argument) => argument_meaning(raw, word, argument),
            None => CommandMeaning::Test(raw),
        }
    }
}

/// The identity in a raw `peer` command: what stands between its first two bars, where it has two.
pub open spec fn command_vlad(raw: Seq<char>) -> Option<Seq<char>> {
    match command_argument(raw) {
        Some(argument) if text::first_part(raw, '|') == "peer"@ => match text::split_at_first(
            argument,
            '|',
        ) {
            Some((vlad, _)) => Some(vlad),
            None => None,
        },
        _ => None,
    }
}

/// Reads a raw command whose word needs an argument.
fn parse_argument(raw: &str, word: &str, argument: String) -> (r: Command)
    ensures
        r@ == argument_meaning(raw@, word@, argument@),
{
    if text::same_text(word, "restart") {
        match text::parse_u64(argument.as_str()) {
            Some(delay) => Command::Restart { delay_secs: delay },
            None => Command::Test(raw.to_owned()),
        }
    } else if text::same_text(word, "push") {
        match text::split_once(argument.as_str(), '|') {
            Some((peer, message)) => Command::Push { peer, message },
            None => Command::Test(raw.to_owned()),
        }
    } else if text::same_text(word, "track") {
        Command::Track { peer: argument }
    } else if text::same_text(word, "peer") {
        match text::split_once(argument.as_str(), '|') {
            Some((_, multiaddr)) => Command::Peer { multiaddr },
            None => Command::Peer { multiaddr: argument },
        }
    } else {
        Command::Test(raw.to_owned())
    }
}

impl Command {
    /// Reads a raw command, whose parts are separated by bars.
    pub fn parse(raw: &str) -> (r: Self)
        ensures
            r@ == command_meaning(raw@),
    {
        proof {
            text::find_is_first(raw@, '|');
            assert(raw@.take(raw@.len() as int) =~= raw@);
        }
        let (word, argument) = match text::split_once(raw, '|') {
            Some((word, rest)) => (word, Some(rest)),
            None => (raw.to_owned(), None),
        };
        assert(word@ == text::first_part(raw@, '|'));
        assert(config::option_text(argument) == command_argument(raw@));
        if text::same_text(word.as_str(), "connect") {
            return Command::Connect;
        }
        if text::same_text(word.as_str(), "disconnect") {
            return Command::Disconnect;
        }
        if text::same_text(word.as_str(), "shutdown") {
            return Command::Shutdown;
        }
        if text::same_text(word.as_str(), "pull") {
            return Command::Pull;
        }
        if text::same_text(word.as_str(), "rotate-key") {
            return Command::RotateKey;
        }
        match argument {
            Some(argument) => parse_argument(raw, word.as_str(), argument),
            None => Command::Test(raw.to_owned()),
        }
    }

    /// Reads the identity of the peer that a raw command introduces, where it tells one.
    pub fn vlad(raw: &str) -> (r: Option<String>)
        ensures
            config::option_text(r) == command_vlad(raw@),
    {
        match text::split_once(raw, '|') {
            Some((word, argument)) => {
                if text::same_text(word.as_str(), "peer") {
                    match text::split_once(argument.as_str(), '|') {
                        Some((vlad, _)) => Some(vlad),
                        None => None,
                    }
                } else {
                    None
                }
            },
            None => None,
        }
    }
}

/// A text up to a bar, which has none of its own, and what follows that bar are taken apart again.
proof fn parts_come_apart(first: Seq<char>, rest: Seq<char>)
    requires
        !first.contains('|'),
    ensures
        text::split_at_first(first + seq!['|'] + rest, '|') == Some((first, rest)),
        text::first_part(first + seq!['|'] + rest, '|') == first,
{
    let whole = first + seq!['|'] + rest;
    assert forall|k: int| 0 <= k < first.len() implies whole[k] != '|' by {
        assert(first.contains(first[k]));
    }
    text::find_is_unique(whole, '|', first.len() as int);
    assert(whole.take(first.len() as int) =~= first);
    assert(whole.skip(first.len() as int + 1) =~= rest);
}

/// A word that needs an argument and the argument, with a bar between them, mean what the word does
/// with that argument.
proof fn argument_is_understood(word: Seq<char>, argument: Seq<char>)
    requires
        word == "restart"@ || word == "push"@ || word == "track"@ || word == "peer"@,
    ensures
        command_meaning(word + seq!['|'] + argument) == argument_meaning(
            word + seq!['|'] + argument,
            word,
            argument,
        ),
{
    reveal_strlit("connect");
    reveal_strlit("disconnect");
    reveal_strlit("shutdown");
    reveal_strlit("pull");
    reveal_strlit("rotate-key");
    reveal_strlit("restart");
    reveal_strlit("push");
    reveal_strlit("track");
    reveal_strlit("peer");
    assert(!word.contains('|'));
    parts_come_apart(word, argument);
    assert(word[0] != "connect"@[0]);
    assert(word[0] != "disconnect"@[0]);
    assert(word[0] != "shutdown"@[0]);
    assert(word[0] != "pull"@[0] || word[1] != "pull"@[1] || word[2] != "pull"@[2]);
    assert(word.len() != "rotate-key"@.len());
}

/// The words that need an argument differ.
proof fn argument_words_differ()
    ensures
        "restart"@ != "push"@,
        "restart"@ != "track"@,
        "restart"@ != "peer"@,
        "push"@ != "track"@,
        "push"@ != "peer"@,
        "track"@ != "peer"@,
{
    reveal_strlit("restart");
    reveal_strlit("push");
    reveal_strlit("track");
    reveal_strlit("peer");
    assert("restart"@.len() == 7);
    assert("push"@.len() == 4);
    assert("track"@.len() == 5);
    assert("peer"@.len() == 4);
    assert("push"@[1] != "peer"@[1]);
}

/// A restart command with any delay in decimal is understood as that delay.
pub proof fn restart_is_understood(delay: u64)
    ensures
        command_meaning("restart"@ + seq!['|'] + text::decimal(delay as nat))
            == CommandMeaning::Restart(delay),
{
    argument_is_understood("restart"@, text::decimal(delay as nat));
    text::parse_reads_back_decimal(delay);
}

/// A push command gives back the peer, where its name has no bar in it, and the whole message,
/// further bars included.
pub proof fn push_is_understood(peer: Seq<char>, message: Seq<char>)
    requires
        !peer.contains('|'),
    ensures
        command_meaning("push"@ + seq!['|'] + (peer + seq!['|'] + message)) == CommandMeaning::Push(
            peer,
            message,
        ),
{
    argument_is_understood("push"@, peer + seq!['|'] + message);
    argument_words_differ();
    parts_come_apart(peer, message);
}

/// A track command gives back the peer.
pub proof fn track_is_understood(peer: Seq<char>)
    ensures
        command_meaning("track"@ + seq!['|'] + peer) == CommandMeaning::Track(peer),
{
    argument_is_understood("track"@, peer);
    argument_words_differ();
}

/// A peer command gives back the address, whether an identity, which has no bar in it, stands before
/// it or not, and the identity beside it; without an identity the address has no bar in it either.
pub proof fn peer_is_understood(identity: Seq<char>, address: Seq<char>)
    requires
        !identity.contains('|'),
    ensures
        command_meaning("peer"@ + seq!['|'] + (identity + seq!['|'] + address))
            == CommandMeaning::Peer(address),
        command_vlad("peer"@ + seq!['|'] + (identity + seq!['|'] + address)) == Some(identity),
        !address.contains('|') ==> command_meaning("peer"@ + seq!['|'] + address)
            == CommandMeaning::Peer(address) && command_vlad("peer"@ + seq!['|'] + address) is None,
{
    reveal_strlit("peer");
    parts_come_apart("peer"@, identity + seq!['|'] + address);
    parts_come_apart("peer"@, address);
    argument_is_understood("peer"@, identity + seq!['|'] + address);
    argument_is_understood("peer"@, address);
    argument_words_differ();
    parts_come_apart(identity, address);
    if !address.contains('|') {
        text::find_is_first(address, '|');
        if text::find(address, '|') < address.len() {
            assert(address.contains(address[text::find(address, '|')]));
        }
    }
}

/// A command that is none of the known ones reaches the test unchanged.
pub proof fn other_commands_are_kept_whole(raw: Seq<char>)
    requires
        !(text::first_part(raw, '|') == "connect"@),
        !(text::first_part(raw, '|') == "disconnect"@),
        !(text::first_part(raw, '|') == "shutdown"@),
        !(text::first_part(raw, '|') == "restart"@),
        !(text::first_part(raw, '|') == "push"@),
        !(text::first_part(raw, '|') == "pull"@),
        !(text::first_part(raw, '|') == "rotate-key"@),
        !(text::first_part(raw, '|') == "track"@),
        !(text::first_part(raw, '|') == "peer"@),
    ensures
        command_meaning(raw) == CommandMeaning::Test(raw),
{
}

/// The commands without an argument are understood alone, and with whatever stands behind a bar.
pub proof fn bare_commands_are_understood(rest: Seq<char>)
    ensures
        command_meaning("connect"@) == CommandMeaning::Connect,
        command_meaning("disconnect"@) == CommandMeaning::Disconnect,
        command_meaning("shutdown"@) == CommandMeaning::Shutdown,
        command_meaning("pull"@) == CommandMeaning::Pull,
        command_meaning("rotate-key"@) == CommandMeaning::RotateKey,
        command_meaning("connect"@ + seq!['|'] + rest) == CommandMeaning::Connect,
        command_meaning("disconnect"@ + seq!['|'] + rest) == CommandMeaning::Disconnect,
        command_meaning("shutdown"@ + seq!['|'] + rest) == CommandMeaning::Shutdown,
        command_meaning("pull"@ + seq!['|'] + rest) == CommandMeaning::Pull,
        command_meaning("rotate-key"@ + seq!['|'] + rest) == CommandMeaning::RotateKey,
{
    reveal_strlit("connect");
    reveal_strlit("disconnect");
    reveal_strlit("shutdown");
    reveal_strlit("pull");
    reveal_strlit("rotate-key");
    lone_words("connect"@);
    lone_words("disconnect"@);
    lone_words("shutdown"@);
    lone_words("pull"@);
    lone_words("rotate-key"@);
    parts_come_apart("connect"@, rest);
    parts_come_apart("disconnect"@, rest);
    parts_come_apart("shutdown"@, rest);
    parts_come_apart("pull"@, rest);
    parts_come_apart("rotate-key"@, rest);
    assert("connect"@.len() == 7);
    assert("disconnect"@.len() == 10);
    assert("shutdown"@.len() == 8);
    assert("pull"@.len() == 4);
    assert("rotate-key"@.len() == 10);
    assert("disconnect"@[0] != "rotate-key"@[0]);
}

/// A text without a bar is all word and no argument.
proof fn lone_words(word: Seq<char>)
    requires
        !word.contains('|'),
    ensures
        text::first_part(word, '|') == word,
        command_argument(word) is None,
{
    text::find_is_first(word, '|');
    if text::find(word, '|') < word.len() {
        assert(word.contains(word[text::find(word, '|')]));
    }
    assert(word.take(word.len() as int) =~= word);
}

/// What cannot be used is kept whole: a text without a bar that is no command by itself, a restart
/// with a delay that is no number, and a push with a peer but no message.
pub proof fn unusable_commands_are_kept_whole(raw: Seq<char>, delay: Seq<char>, peer: Seq<char>)
    ensures
        !raw.contains('|') && raw != "connect"@ && raw != "disconnect"@ && raw != "shutdown"@ && raw
            != "pull"@ && raw != "rotate-key"@ ==> command_meaning(raw) == CommandMeaning::Test(raw),
        text::parsed_u64(delay) is None ==> command_meaning("restart"@ + seq!['|'] + delay)
            == CommandMeaning::Test("restart"@ + seq!['|'] + delay),
        !peer.contains('|') ==> command_meaning("push"@ + seq!['|'] + peer) == CommandMeaning::Test(
            "push"@ + seq!['|'] + peer,
        ),
{
    if !raw.contains('|') {
        lone_words(raw);
    }
    argument_is_understood("restart"@, delay);
    argument_is_understood("push"@, peer);
    argument_words_differ();
    if !peer.contains('|') {
        lone_words(peer);
        text::find_is_first(peer, '|');
    }
}

/// An identity is told by `peer` commands alone.
pub proof fn identities_come_with_peers(word: Seq<char>, argument: Seq<char>)
    requires
        !word.contains('|'),
        word != "peer"@,
    ensures
        command_vlad(word + seq!['|'] + argument) is None,
        command_vlad(word) is None,
{
    parts_come_apart(word, argument);
    lone_words(word);
}

// ---------------------------------------------------------------------------------------------
// Keys
// ---------------------------------------------------------------------------------------------
/// The key under which a peer receives its commands.
pub open spec fn command_key(peer: Seq<char>) -> Seq<char> {
    peer + "_command"@
}

/// The key under which a peer gives its status.
pub open spec fn status_key(peer: Seq<char>) -> Seq<char> {
    peer + "_status"@
}

/// The key under which a peer sends its log entries.
pub open spec fn log_key(peer: Seq<char>) -> Seq<char> {
    peer + "_log"@
}

pub fn command_key_of(peer: &str) -> (r: String)
    ensures
        r@ == command_key(peer@),
{
    let mut out = peer.to_owned();
    out.push_str("_command");
    out
}

pub fn status_key_of(peer: &str) -> (r: String)
    ensures
        r@ == status_key(peer@),
{
    let mut out = peer.to_owned();
    out.push_str("_status");
    out
}

pub fn log_key_of(peer: &str) -> (r: String)
    ensures
        r@ == log_key(peer@),
{
    let mut out = peer.to_owned();
    out.push_str("_log");
    out
}

/// No two peers share a key, and no key serves two purposes.
pub proof fn keys_do_not_collide(a: Seq<char>, b: Seq<char>)
    ensures
        command_key(a) == command_key(b) <==> a == b,
        status_key(a) == status_key(b) <==> a == b,
        log_key(a) == log_key(b) <==> a == b,
        command_key(a) != status_key(b),
        command_key(a) != log_key(b),
        status_key(a) != log_key(b),
{
    reveal_strlit("_command");
    reveal_strlit("_status");
    reveal_strlit("_log");
    if command_key(a) == command_key(b) {
        assert(a =~= command_key(a).take(command_key(a).len() - 8));
        assert(b =~= command_key(b).take(command_key(b).len() - 8));
    }
    if status_key(a) == status_key(b) {
        assert(a =~= status_key(a).take(status_key(a).len() - 7));
        assert(b =~= status_key(b).take(status_key(b).len() - 7));
    }
    if log_key(a) == log_key(b) {
        assert(a =~= log_key(a).take(log_key(a).len() - 4));
        assert(b =~= log_key(b).take(log_key(b).len() - 4));
    }
    assert(command_key(a).last() == 'd');
    assert(status_key(b).last() == 's');
    assert(status_key(a).last() == 's');
    assert(log_key(b).last() == 'g');
}

// ---------------------------------------------------------------------------------------------
// Errors
// ---------------------------------------------------------------------------------------------
/// What can go wrong with a client.
#[derive(Debug)]
pub enum MuleError {
    MissingConfig(String),
    Redis(redis::RedisError),
}

impl From<redis::RedisError> for MuleError {
    fn from(e: redis::RedisError) -> (r: Self) {
        MuleError::Redis(e)
    }
}

impl vstd::std_specs::convert::FromSpecImpl<redis::RedisError> for MuleError {
    open spec fn obeys_from_spec() -> bool {
        true
    }

    open spec fn from_spec(e: redis::RedisError) -> MuleError {
        MuleError::Redis(e)
    }
}

/// The message for an error of Redis with the given text.
pub fn redis_error_message(description: &str) -> (r: String)
    ensures
        r@ == "redis error: "@ + description@,
{
    let mut out = "redis error: ".to_owned();
    out.push_str(description);
    out
}

impl MuleError {
    /// The error as a message. The text of an error of Redis is its own.
    pub fn to_string(&self) -> (r: String)
        ensures
            match self {
                MuleError::MissingConfig(what) => r@ == "missing config: "@ + what@,
                MuleError::Redis(_) => text::begins_with(r@, "redis error: "@),
            },
    {
        match self {
            MuleError::MissingConfig(what) => {
                let mut out = "missing config: ".to_owned();
                out.push_str(what.as_str());
                out
            },
            MuleError::Redis(e) => {
                let out = redis_error_message(outside::redis_error_text(e).as_str());
                assert(out@.take("redis error: "@.len() as int) =~= "redis error: "@);
                out
            },
        }
    }
}

// ---------------------------------------------------------------------------------------------
// The builder
// ---------------------------------------------------------------------------------------------
/// Collects what a client needs.
pub struct MuleClientBuilder {
    redis_url: Option<String>,
    peer_name: Option<String>,
}

/// What a client works with: the client for the server, the peer's name and its keys.
pub struct ClientSettings {
    pub redis: redis::Client,
    pub peer_name: String,
    pub status_key: String,
    pub command_key: String,
    pub log_key: String,
}

impl MuleClientBuilder {
    /// The address of the server so far.
    pub closed spec fn url(&self) -> Option<Seq<char>> {
        config::option_text(self.redis_url)
    }

    /// The name of the peer so far.
    pub closed spec fn name(&self) -> Option<Seq<char>> {
        config::option_text(self.peer_name)
    }

    /// A builder that starts from the values of `REDIS_URL` and `PEER_NAME`, where they are set.
    pub fn new(redis_url: Option<String>, peer_name: Option<String>) -> (r: Self)
        ensures
            r.url() == config::option_text(redis_url),
            r.name() == config::option_text(peer_name),
    {
        MuleClientBuilder { redis_url, peer_name }
    }

    pub fn redis_url(self, url: &str) -> (r: Self)
        ensures
            r.url() == Some(url@),
            r.name() == self.name(),
    {
        MuleClientBuilder { redis_url: Some(url.to_owned()), peer_name: self.peer_name }
    }

    pub fn peer_name(self, name: &str) -> (r: Self)
        ensures
            r.url() == self.url(),
            r.name() == Some(name@),
    {
        MuleClientBuilder { redis_url: self.redis_url, peer_name: Some(name.to_owned()) }
    }

    /// Settles what the client works with. The address is asked for first, then the name, and then
    /// the address is read.
    pub fn build(self) -> (r: Result<ClientSettings, MuleError>)
        ensures
            match (self.url(), self.name()) {
                (None, _) => r matches Err(MuleError::MissingConfig(what)) && what@
                    == "REDIS_URL not set"@,
                (Some(_), None) => r matches Err(MuleError::MissingConfig(what)) && what@
                    == "PEER_NAME not set"@,
                (Some(url), Some(name)) => match r {
                    Ok(settings) => {
                        &&& outside::redis_target(url) == Some(
                            outside::client_target(settings.redis),
                        )
                        &&& settings.peer_name@ == name
                        &&& settings.status_key@ == status_key(name)
                        &&& settings.command_key@ == command_key(name)
                        &&& settings.log_key@ == log_key(name)
                    },
                    Err(e) => outside::redis_target(url) is None && e is Redis,
                },
            },
    {
        let url = match self.redis_url {
            Some(url) => url,
            None => {
                return Err(MuleError::MissingConfig("REDIS_URL not set".to_owned()));
            },
        };
        let name = match self.peer_name {
            Some(name) => name,
            None => {
                return Err(MuleError::MissingConfig("PEER_NAME not set".to_owned()));
            },
        };
        match outside::open_client(url.as_str()) {
            Ok(redis) => {
                let status_key = status_key_of(name.as_str());
                let command_key = command_key_of(name.as_str());
                let log_key = log_key_of(name.as_str());
                Ok(ClientSettings { redis, peer_name: name, status_key, command_key, log_key })
            },
            Err(e) => Err(MuleError::from(e)),
        }
    }
}

// ---------------------------------------------------------------------------------------------
// Receiving commands
// ---------------------------------------------------------------------------------------------
/// How waiting for the next command ended.
pub enum PollResult {
    /// This raw command was taken.
    Taken(String),
    /// There was none.
    Nothing,
    /// The server could not be asked.
    Failed,
}

/// What to do after waiting for the next command.
pub enum PollStep {
    /// Hand the command on, and the identity that it tells, where it does.
    Deliver(Command, Option<String>),
    /// Wait again at once.
    Again,
    /// Wait again after a second.
    Pause,
}

/// What to do after waiting for the next command.
pub fn poll_next(result: PollResult) -> (r: PollStep)
    ensures
        match result {
            PollResult::Taken(raw) => r matches PollStep::Deliver(command, vlad) && command@
                == command_meaning(raw@) && config::option_text(vlad) == command_vlad(raw@),
            PollResult::Nothing => r is Again,
            PollResult::Failed => r is Pause,
        },
{
    match result {
        PollResult::Taken(raw) => PollStep::Deliver(
            Command::parse(raw.as_str()),
            Command::vlad(raw.as_str()),
        ),
        PollResult::Nothing => PollStep::Again,
        PollResult::Failed => PollStep::Pause,
    }
}

// ---------------------------------------------------------------------------------------------
// Log entries
// ---------------------------------------------------------------------------------------------
/// The word for a level in a log entry: there is none for the lowest level, which is sent as the
/// one above it.
pub open spec fn entry_level(level: LogLevel) -> Seq<char> {
    match level {
        LogLevel::Trace => "debug"@,
        other => other.word(),
    }
}

/// The message of a log event; an event without one is sent under its own name.
pub open spec fn entry_message(message: Seq<char>, event: Seq<char>) -> Seq<char> {
    if message.len() == 0 {
        event
    } else {
        message
    }
}

/// A log entry as it is sent: the level and the message.
pub open spec fn entry_text(level: LogLevel, message: Seq<char>, event: Seq<char>) -> Seq<char> {
    entry_level(level) + "|"@ + entry_message(message, event)
}

/// A log entry as it is sent.
pub fn log_entry(level: LogLevel, message: &str, event: &str) -> (r: String)
    ensures
        r@ == entry_text(level, message@, event@),
{
    let word = match level {
        LogLevel::Trace => "debug",
        _ => level.as_filter_str(),
    };
    let mut out = word.to_owned();
    out.push_str("|");
    if text::char_count(message) == 0 {
        out.push_str(event);
    } else {
        out.push_str(message);
    }
    out
}

/// Picks the message out of the fields of a log event.
pub struct MessageVisitor {
    message: String,
}

impl View for MessageVisitor {
    type V = Seq<char>;

    closed spec fn view(&self) -> Seq<char> {
        self.message@
    }
}

impl MessageVisitor {
    pub fn new() -> (r: Self)
        ensures
            r@ == Seq::<char>::empty(),
    {
        MessageVisitor { message: String::new() }
    }

    /// Takes note of a field and its value as text: only the message counts.
    pub fn record(&mut self, field: &str, value: String)
        ensures
            final(self)@ == if field@ == "message"@ {
                value@
            } else {
                old(self)@
            },
    {
        if text::same_text(field, "message") {
            self.message = value;
        }
    }

    pub fn message(&self) -> (r: &str)
        ensures
            r@ == self@,
    {
        self.message.as_str()
    }
}

/// A peer's keys are its name and what they are for.
pub proof fn keys_begin_with_the_name(peer: Seq<char>)
    ensures
        command_key(peer) == peer + "_command"@,
        status_key(peer) == peer + "_status"@,
        log_key(peer) == peer + "_log"@,
{
}

/// What is sent to the log is the level, a bar and the whole message, or the name of the event where
/// there is no message.
pub proof fn entries_hold_level_and_message(level: LogLevel, message: Seq<char>, event: Seq<char>)
    ensures
        message.len() > 0 && level != LogLevel::Trace ==> entry_text(level, message, event)
            == level.word() + "|"@ + message,
        message.len() == 0 && level != LogLevel::Trace ==> entry_text(level, message, event)
            == level.word() + "|"@ + event,
        entry_text(LogLevel::Trace, message, event) == entry_text(LogLevel::Debug, message, event),
{
}

} // verus!
