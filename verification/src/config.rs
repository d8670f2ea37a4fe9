//! The test configuration: its types, its defaults and the ways to write it down.
use vstd::prelude::*;

use crate::text;
use crate::text_map::TextMap;

pub use crate::assignment::{assign_peers, ports_fit};

verus! {

// ---------------------------------------------------------------------------------------------
// Names
// ---------------------------------------------------------------------------------------------
/// The name of a peer.
#[derive(Debug, PartialEq, Eq, PartialOrd, Ord, Hash)]
pub struct PeerName(String);

impl View for PeerName {
    type V = Seq<char>;

    closed spec fn view(&self) -> Seq<char> {
        self.0@
    }
}

impl PeerName {
    pub fn new(s: &str) -> (r: Self)
        ensures
            r@ == s@,
    {
        PeerName(s.to_owned())
    }

    pub fn as_str(&self) -> (r: &str)
        ensures
            r@ == self@,
    {
        self.0.as_str()
    }

    /// The name as it is shown to people: in square brackets.
    pub fn to_string(&self) -> (r: String)
        ensures
            r@ == seq!['['] + self@ + seq![']'],
    {
        let mut out = String::new();
        out.push('[');
        out.push_str(self.0.as_str());
        out.push(']');
        assert(out@ =~= seq!['['] + self@ + seq![']']);
        out
    }
}

impl Clone for PeerName {
    fn clone(&self) -> (r: Self)
        ensures
            r == *self,
    {
        PeerName(self.0.clone())
    }
}

/// The texts of a list of peer names.
pub open spec fn peer_names(list: Seq<PeerName>) -> Seq<Seq<char>> {
    Seq::new(list.len(), |i: int| list[i]@)
}

/// The name of a host.
#[derive(Debug, PartialEq, Eq, PartialOrd, Ord, Hash)]
pub struct HostName(String);

impl View for HostName {
    type V = Seq<char>;

    closed spec fn view(&self) -> Seq<char> {
        self.0@
    }
}

impl HostName {
    pub fn new(s: &str) -> (r: Self)
        ensures
            r@ == s@,
    {
        HostName(s.to_owned())
    }

    pub fn as_str(&self) -> (r: &str)
        ensures
            r@ == self@,
    {
        self.0.as_str()
    }

    /// The name as it is shown to people: in angle brackets.
    pub fn to_string(&self) -> (r: String)
        ensures
            r@ == seq!['<'] + self@ + seq!['>'],
    {
        let mut out = String::new();
        out.push('<');
        out.push_str(self.0.as_str());
        out.push('>');
        assert(out@ =~= seq!['<'] + self@ + seq!['>']);
        out
    }
}

impl Clone for HostName {
    fn clone(&self) -> (r: Self)
        ensures
            r == *self,
    {
        HostName(self.0.clone())
    }
}

// ---------------------------------------------------------------------------------------------
// Log levels
// ---------------------------------------------------------------------------------------------
/// How much is logged.
#[derive(Debug, Clone, Copy, PartialEq, Eq, Structural)]
pub enum LogLevel {
    Error,
    Warn,
    Info,
    Debug,
    Trace,
}

impl LogLevel {
    /// The word that log filters and log entries use for this level.
    pub open spec fn word(&self) -> Seq<char> {
        match self {
            LogLevel::Error => "error"@,
            LogLevel::Warn => "warn"@,
            LogLevel::Info => "info"@,
            LogLevel::Debug => "debug"@,
            LogLevel::Trace => "trace"@,
        }
    }

    pub fn as_filter_str(&self) -> (r: &str)
        ensures
            r@ == self.word(),
    {
        match self {
            LogLevel::Error => "error",
            LogLevel::Warn => "warn",
            LogLevel::Info => "info",
            LogLevel::Debug => "debug",
            LogLevel::Trace => "trace",
        }
    }
}

/// Different levels have different words.
pub proof fn level_words_differ(a: LogLevel, b: LogLevel)
    ensures
        a.word() == b.word() <==> a == b,
{
    reveal_strlit("error");
    reveal_strlit("warn");
    reveal_strlit("info");
    reveal_strlit("debug");
    reveal_strlit("trace");
    if a.word() == b.word() {
        assert(a.word()[0] == b.word()[0]);
    }
}

// ---------------------------------------------------------------------------------------------
// The configuration
// ---------------------------------------------------------------------------------------------
/// A whole test run.
#[derive(Clone)]
pub struct TestConfig {
    pub name: String,
    pub timeout: TimeoutConfig,
    pub redis: RedisConfig,
    pub images: Vec<String>,
    pub remove_images: bool,
    pub peer_environment: TextMap<String>,
    pub hosts: Vec<HostConfig>,
    pub peers: Vec<PeerConfig>,
    pub commands: Vec<TestCommand>,
    pub log_level: Option<LogLevel>,
}

/// Where the message store listens and which image provides it.
#[derive(Clone)]
pub struct RedisConfig {
    pub port: u16,
    pub image: String,
}

/// A remote machine that peers run on.
#[derive(Debug)]
pub struct HostConfig {
    pub address: String,
    pub name: Option<String>,
    pub ssh_user: String,
    pub ssh_auth: String,
    pub base_port: u16,
    pub tags: Vec<String>,
}

/// A peer of the test.
#[derive(Clone)]
pub struct PeerConfig {
    pub name: PeerName,
    pub image: String,
    pub bootstrap: Vec<PeerName>,
    pub environment: TextMap<String>,
    pub runs_on: Vec<String>,
}

/// A command and the second at which it is sent.
#[derive(Clone)]
pub struct TestCommand {
    pub time: u64,
    pub peer: PeerName,
    pub command: String,
}

/// How many seconds the peers have for starting and for stopping.
#[derive(Debug, Clone, Copy, PartialEq, Eq, Structural)]
pub struct TimeoutConfig {
    pub startup: u64,
    pub shutdown: u64,
}

/// Where a peer runs and what it is started with.
#[derive(Debug)]
pub struct PeerAssignment {
    pub peer_name: PeerName,
    pub host: HostConfig,
    pub port: u16,
    pub listen_addr: String,
    pub extra_env: TextMap<String>,
    pub docker_image: String,
}

// ---------------------------------------------------------------------------------------------
// Contents
// ---------------------------------------------------------------------------------------------
/// The text in an optional string.
pub open spec fn option_text(s: Option<String>) -> Option<Seq<char>> {
    match s {
        Some(s) => Some(s@),
        None => None,
    }
}

/// A map of strings by its texts.
pub open spec fn text_values(m: Map<Seq<char>, String>) -> Map<Seq<char>, Seq<char>> {
    m.map_values(|s: String| s@)
}

/// What a host configuration says.
pub struct HostView {
    pub address: Seq<char>,
    pub name: Option<Seq<char>>,
    pub ssh_user: Seq<char>,
    pub ssh_auth: Seq<char>,
    pub base_port: u16,
    pub tags: Seq<Seq<char>>,
}

impl View for HostConfig {
    type V = HostView;

    open spec fn view(&self) -> HostView {
        HostView {
            address: self.address@,
            name: option_text(self.name),
            ssh_user: self.ssh_user@,
            ssh_auth: self.ssh_auth@,
            base_port: self.base_port,
            tags: text::texts(self.tags@),
        }
    }
}

impl HostView {
    /// The name of a host, or its address where it has no name.
    pub open spec fn display_name(self) -> Seq<char> {
        match self.name {
            Some(name) => name,
            None => self.address,
        }
    }
}

/// What a peer configuration says.
pub struct PeerView {
    pub name: Seq<char>,
    pub image: Seq<char>,
    pub bootstrap: Seq<Seq<char>>,
    pub environment: Map<Seq<char>, Seq<char>>,
    pub runs_on: Seq<Seq<char>>,
}

impl View for PeerConfig {
    type V = PeerView;

    open spec fn view(&self) -> PeerView {
        PeerView {
            name: self.name@,
            image: self.image@,
            bootstrap: peer_names(self.bootstrap@),
            environment: text_values(self.environment@),
            runs_on: text::texts(self.runs_on@),
        }
    }
}

/// What a command says.
pub struct CommandView {
    pub time: u64,
    pub peer: Seq<char>,
    pub command: Seq<char>,
}

impl View for TestCommand {
    type V = CommandView;

    open spec fn view(&self) -> CommandView {
        CommandView { time: self.time, peer: self.peer@, command: self.command@ }
    }
}

/// What an assignment says.
pub struct AssignmentView {
    pub peer_name: Seq<char>,
    pub host: HostView,
    pub port: u16,
    pub listen_addr: Seq<char>,
    pub extra_env: Map<Seq<char>, Seq<char>>,
    pub docker_image: Seq<char>,
}

impl View for PeerAssignment {
    type V = AssignmentView;

    open spec fn view(&self) -> AssignmentView {
        AssignmentView {
            peer_name: self.peer_name@,
            host: self.host@,
            port: self.port,
            listen_addr: self.listen_addr@,
            extra_env: text_values(self.extra_env@),
            docker_image: self.docker_image@,
        }
    }
}

/// What a list of host configurations says.
pub open spec fn hosts_view(list: Seq<HostConfig>) -> Seq<HostView> {
    Seq::new(list.len(), |i: int| list[i]@)
}

/// What a list of peer configurations says.
pub open spec fn peers_view(list: Seq<PeerConfig>) -> Seq<PeerView> {
    Seq::new(list.len(), |i: int| list[i]@)
}

/// What a list of commands says.
pub open spec fn commands_view(list: Seq<TestCommand>) -> Seq<CommandView> {
    Seq::new(list.len(), |i: int| list[i]@)
}

/// What a list of assignments says.
pub open spec fn assignments_view(list: Seq<PeerAssignment>) -> Seq<AssignmentView> {
    Seq::new(list.len(), |i: int| list[i]@)
}

impl Clone for HostConfig {
    fn clone(&self) -> (r: Self)
        ensures
            r@ == self@,
    {
        let name = match &self.name {
            Some(name) => Some(name.clone()),
            None => None,
        };
        HostConfig {
            address: self.address.clone(),
            name,
            ssh_user: self.ssh_user.clone(),
            ssh_auth: self.ssh_auth.clone(),
            base_port: self.base_port,
            tags: text::copy_texts(&self.tags),
        }
    }
}

impl HostConfig {
    /// The name of the host, or its address where it has no name.
    pub fn display_name(&self) -> (r: &str)
        ensures
            r@ == self@.display_name(),
    {
        match &self.name {
            Some(name) => name.as_str(),
            None => self.address.as_str(),
        }
    }

    pub fn host_name(&self) -> (r: HostName)
        ensures
            r@ == self@.display_name(),
    {
        HostName::new(self.display_name())
    }
}

impl Clone for PeerAssignment {
    fn clone(&self) -> (r: Self)
        ensures
            r@ == self@,
    {
        PeerAssignment {
            peer_name: self.peer_name.clone(),
            host: self.host.clone(),
            port: self.port,
            listen_addr: self.listen_addr.clone(),
            extra_env: self.extra_env.clone(),
            docker_image: self.docker_image.clone(),
        }
    }
}

// ---------------------------------------------------------------------------------------------
// Defaults
// ---------------------------------------------------------------------------------------------
pub fn default_startup_timeout() -> (r: u64)
    ensures
        r == 60,
{
    60
}

pub fn default_shutdown_timeout() -> (r: u64)
    ensures
        r == 30,
{
    30
}

impl Default for TimeoutConfig {
    fn default() -> (r: Self)
        ensures
            r.startup == 60,
            r.shutdown == 30,
    {
        TimeoutConfig { startup: default_startup_timeout(), shutdown: default_shutdown_timeout() }
    }
}

// ---------------------------------------------------------------------------------------------
// The configuration as it is written down
// ---------------------------------------------------------------------------------------------
/// A configuration file, with what it leaves out left open.
pub struct ConfigSource {
    pub name: String,
    pub timeout: Option<TimeoutSource>,
    pub redis: RedisConfig,
    pub images: Option<Vec<String>>,
    pub remove_images: Option<bool>,
    pub peer_environment: Option<TextMap<String>>,
    pub hosts: Vec<HostSource>,
    pub peers: Vec<PeerSource>,
    pub commands: Vec<TestCommand>,
    pub log_level: Option<LogLevel>,
}

/// The timeouts that a configuration file gives.
pub struct TimeoutSource {
    pub startup: Option<u64>,
    pub shutdown: Option<u64>,
}

/// A host as a configuration file gives it.
pub struct HostSource {
    pub address: String,
    pub name: Option<String>,
    pub ssh_user: String,
    pub ssh_auth: String,
    pub base_port: u16,
    pub tags: Option<Vec<String>>,
}

/// A peer as a configuration file gives it.
pub struct PeerSource {
    pub name: PeerName,
    pub image: String,
    pub bootstrap: Option<Vec<PeerName>>,
    pub environment: Option<TextMap<String>>,
    pub runs_on: Option<TagSource>,
}

/// The tags of a peer: nothing, one tag or a list of tags.
pub enum TagSource {
    Nothing,
    One(String),
    List(Vec<String>),
}

/// The tags that a peer requires of its host.
pub open spec fn source_tags(source: Option<TagSource>) -> Seq<Seq<char>> {
    match source {
        Some(TagSource::One(tag)) => seq![tag@],
        Some(TagSource::List(tags)) => text::texts(tags@),
        _ => Seq::empty(),
    }
}

/// The environment that a source gives, empty where it gives none.
pub open spec fn source_environment(source: Option<TextMap<String>>) -> Map<Seq<char>, Seq<char>> {
    match source {
        Some(env) => text_values(env@),
        None => Map::empty(),
    }
}

/// The list that a source gives, empty where it gives none.
pub open spec fn source_list(source: Option<Vec<String>>) -> Seq<Seq<char>> {
    match source {
        Some(list) => text::texts(list@),
        None => Seq::empty(),
    }
}

impl HostSource {
    pub open spec fn meaning(self) -> HostView {
        HostView {
            address: self.address@,
            name: option_text(self.name),
            ssh_user: self.ssh_user@,
            ssh_auth: self.ssh_auth@,
            base_port: self.base_port,
            tags: source_list(self.tags),
        }
    }
}

impl PeerSource {
    pub open spec fn meaning(self) -> PeerView {
        PeerView {
            name: self.name@,
            image: self.image@,
            bootstrap: match self.bootstrap {
                Some(list) => peer_names(list@),
                None => Seq::empty(),
            },
            environment: source_environment(self.environment),
            runs_on: source_tags(self.runs_on),
        }
    }
}

/// A list as given, or the empty one.
fn list_or_empty(source: Option<Vec<String>>) -> (r: Vec<String>)
    ensures
        text::texts(r@) == source_list(source),
{
    match source {
        Some(list) => list,
        None => {
            let list: Vec<String> = Vec::new();
            assert(text::texts(list@) =~= Seq::empty());
            list
        },
    }
}

/// An environment as given, or the empty one.
fn environment_or_empty(source: Option<TextMap<String>>) -> (r: TextMap<String>)
    ensures
        text_values(r@) == source_environment(source),
{
    match source {
        Some(env) => env,
        None => {
            let env = TextMap::new();
            assert(text_values(env@) =~= Map::empty());
            env
        },
    }
}

/// The tags that a peer requires of its host: one tag may stand for a list of one.
pub fn tags_of(source: Option<TagSource>) -> (r: Vec<String>)
    ensures
        text::texts(r@) == source_tags(source),
{
    let mut tags: Vec<String> = Vec::new();
    match source {
        Some(TagSource::One(tag)) => {
            tags.push(tag);
            assert(text::texts(tags@) =~= seq![tag@]);
        },
        Some(TagSource::List(list)) => {
            tags = list;
        },
        _ => {
            assert(text::texts(tags@) =~= Seq::empty());
        },
    }
    tags
}

impl TimeoutConfig {
    /// The timeouts, each with its default where it is left out.
    pub fn from_source(source: Option<TimeoutSource>) -> (r: Self)
        ensures
            r.startup == match source {
                Some(TimeoutSource { startup: Some(n), .. }) => n,
                _ => 60,
            },
            r.shutdown == match source {
                Some(TimeoutSource { shutdown: Some(n), .. }) => n,
                _ => 30,
            },
    {
        match source {
            Some(given) => TimeoutConfig {
                startup: match given.startup {
                    Some(n) => n,
                    None => default_startup_timeout(),
                },
                shutdown: match given.shutdown {
                    Some(n) => n,
                    None => default_shutdown_timeout(),
                },
            },
            None => TimeoutConfig::default(),
        }
    }
}

impl HostConfig {
    pub fn from_source(source: HostSource) -> (r: Self)
        ensures
            r@ == source.meaning(),
    {
        HostConfig {
            address: source.address,
            name: source.name,
            ssh_user: source.ssh_user,
            ssh_auth: source.ssh_auth,
            base_port: source.base_port,
            tags: list_or_empty(source.tags),
        }
    }
}

impl PeerConfig {
    pub fn from_source(source: PeerSource) -> (r: Self)
        ensures
            r@ == source.meaning(),
    {
        let bootstrap = match source.bootstrap {
            Some(list) => list,
            None => Vec::new(),
        };
        assert(peer_names(bootstrap@) =~= source.meaning().bootstrap);
        PeerConfig {
            name: source.name,
            image: source.image,
            bootstrap,
            environment: environment_or_empty(source.environment),
            runs_on: tags_of(source.runs_on),
        }
    }
}

/// What a list of hosts in a configuration file means.
pub open spec fn hosts_meaning(list: Seq<HostSource>) -> Seq<HostView> {
    Seq::new(list.len(), |i: int| list[i].meaning())
}

/// What a list of peers in a configuration file means.
pub open spec fn peers_meaning(list: Seq<PeerSource>) -> Seq<PeerView> {
    Seq::new(list.len(), |i: int| list[i].meaning())
}

fn hosts_from(source: Vec<HostSource>) -> (r: Vec<HostConfig>)
    ensures
        hosts_view(r@) == hosts_meaning(source@),
{
    let mut rest = source;
    let mut out: Vec<HostConfig> = Vec::new();
    while rest.len() > 0
        invariant
            hosts_meaning(source@) == hosts_meaning(rest@) + hosts_view(out@),
        decreases rest@.len(),
    {
        let ghost before = rest@;
        let ghost done = out@;
        let last = rest.pop().unwrap();
        out.insert(0, HostConfig::from_source(last));
        assert(hosts_meaning(before) =~= hosts_meaning(rest@).push(last.meaning()));
        assert(hosts_view(out@) =~= seq![last.meaning()] + hosts_view(done));
        assert(hosts_meaning(rest@) + hosts_view(out@) =~= hosts_meaning(before) + hosts_view(
            done,
        ));
    }
    assert(hosts_view(out@) =~= hosts_meaning(source@));
    out
}

fn peers_from(source: Vec<PeerSource>) -> (r: Vec<PeerConfig>)
    ensures
        peers_view(r@) == peers_meaning(source@),
{
    let mut rest = source;
    let mut out: Vec<PeerConfig> = Vec::new();
    while rest.len() > 0
        invariant
            peers_meaning(source@) == peers_meaning(rest@) + peers_view(out@),
        decreases rest@.len(),
    {
        let ghost before = rest@;
        let ghost done = out@;
        let last = rest.pop().unwrap();
        out.insert(0, PeerConfig::from_source(last));
        assert(peers_meaning(before) =~= peers_meaning(rest@).push(last.meaning()));
        assert(peers_view(out@) =~= seq![last.meaning()] + peers_view(done));
        assert(peers_meaning(rest@) + peers_view(out@) =~= peers_meaning(before) + peers_view(
            done,
        ));
    }
    assert(peers_view(out@) =~= peers_meaning(source@));
    out
}

impl TestConfig {
    /// The configuration that a configuration file describes, with the defaults filled in.
    pub fn from_source(source: ConfigSource) -> (r: Self)
        ensures
            r.name@ == source.name@,
            r.timeout.startup == match source.timeout {
                Some(TimeoutSource { startup: Some(n), .. }) => n,
                _ => 60,
            },
            r.timeout.shutdown == match source.timeout {
                Some(TimeoutSource { shutdown: Some(n), .. }) => n,
                _ => 30,
            },
            r.redis == source.redis,
            text::texts(r.images@) == source_list(source.images),
            r.remove_images == match source.remove_images {
                Some(b) => b,
                None => false,
            },
            text_values(r.peer_environment@) == source_environment(source.peer_environment),
            hosts_view(r.hosts@) == hosts_meaning(source.hosts@),
            peers_view(r.peers@) == peers_meaning(source.peers@),
            r.commands@ == source.commands@,
            r.log_level == source.log_level,
    {
        TestConfig {
            name: source.name,
            timeout: TimeoutConfig::from_source(source.timeout),
            redis: source.redis,
            images: list_or_empty(source.images),
            remove_images: match source.remove_images {
                Some(b) => b,
                None => false,
            },
            peer_environment: environment_or_empty(source.peer_environment),
            hosts: hosts_from(source.hosts),
            peers: peers_from(source.peers),
            commands: source.commands,
            log_level: source.log_level,
        }
    }
}

// ---------------------------------------------------------------------------------------------
// Environments written as lists
// ---------------------------------------------------------------------------------------------
/// The message for a list entry without an equals sign.
pub open spec fn bad_entry_message(entry: Seq<char>) -> Seq<char> {
    "environment list entry must be KEY=VALUE, got: "@ + entry
}

/// The map that `KEY=VALUE` entries describe: the key ends at the first equals sign, and of two
/// entries with the same key the later one counts.
pub open spec fn entries_map(entries: Seq<Seq<char>>) -> Map<Seq<char>, Seq<char>>
    decreases entries.len(),
{
    if entries.len() == 0 {
        Map::empty()
    } else {
        match text::split_at_first(entries.last(), '=') {
            Some((key, value)) => entries_map(entries.drop_last()).insert(key, value),
            None => entries_map(entries.drop_last()),
        }
    }
}

/// Adds one `KEY=VALUE` entry to an environment.
pub fn add_environment_entry(env: &mut TextMap<String>, entry: &str) -> (r: Result<(), String>)
    ensures
        match text::split_at_first(entry@, '=') {
            Some((key, value)) => r is Ok && text_values(final(env)@) == text_values(
                old(env)@,
            ).insert(key, value),
            None => r matches Err(message) && message@ == bad_entry_message(entry@) && final(env)@
                == old(env)@,
        },
{
    match text::split_once(entry, '=') {
        Some((key, value)) => {
            env.insert(key, value);
            assert(text_values(env@) =~= text_values(old(env)@).insert(key@, value@));
            Ok(())
        },
        None => {
            let mut message = "environment list entry must be KEY=VALUE, got: ".to_owned();
            message.push_str(entry);
            Err(message)
        },
    }
}

/// The environment that a list of `KEY=VALUE` entries describes; the message names the first entry
/// that has no equals sign.
pub fn environment_from_list(entries: &Vec<String>) -> (r: Result<TextMap<String>, String>)
    ensures
        match r {
            Ok(env) => {
                &&& forall|i: int|
                    0 <= i < entries@.len() ==> (#[trigger] entries@[i])@.contains('=')
                &&& text_values(env@) == entries_map(text::texts(entries@))
            },
            Err(message) => exists|i: int|
                0 <= i < entries@.len() && !(#[trigger] entries@[i])@.contains('=') && message@
                    == bad_entry_message(entries@[i]@) && forall|j: int|
                    0 <= j < i ==> (#[trigger] entries@[j])@.contains('='),
        },
{
    let mut env: TextMap<String> = TextMap::new();
    let mut i: usize = 0;
    let ghost given = text::texts(entries@);
    assert(text_values(env@) =~= Map::empty());
    while i < entries.len()
        invariant
            i <= entries@.len(),
            given == text::texts(entries@),
            text_values(env@) == entries_map(given.take(i as int)),
            forall|j: int| 0 <= j < i ==> (#[trigger] entries@[j])@.contains('='),
        decreases entries@.len() - i,
    {
        proof {
            text::find_is_first(entries@[i as int]@, '=');
        }
        match add_environment_entry(&mut env, entries[i].as_str()) {
            Ok(()) => {},
            Err(message) => {
                return Err(message);
            },
        }
        assert(given.take(i + 1).drop_last() =~= given.take(i as int));
        assert(given.take(i + 1).last() == entries@[i as int]@);
        i = i + 1;
    }
    assert(given.take(given.len() as int) =~= given);
    Ok(env)
}

/// Writing `KEY=VALUE` and reading it as a list entry gives back the key and the value, where the
/// key has no equals sign of its own.
pub proof fn entry_reads_back(key: Seq<char>, value: Seq<char>)
    requires
        !key.contains('='),
    ensures
        text::split_at_first(key + seq!['='] + value, '=') == Some((key, value)),
{
    let entry = key + seq!['='] + value;
    assert forall|k: int| 0 <= k < key.len() implies entry[k] != '=' by {
        assert(key.contains(key[k]));
    }
    text::find_is_unique(entry, '=', key.len() as int);
    assert(entry.take(key.len() as int) =~= key);
    assert(entry.skip(key.len() as int + 1) =~= value);
}

/// The `KEY=VALUE` entries for pairs of a key and a value.
pub open spec fn entries_of(pairs: Seq<(String, String)>) -> Seq<Seq<char>> {
    Seq::new(pairs.len(), |i: int| pairs[i].0@ + seq!['='] + pairs[i].1@)
}

/// An environment written as a list is the same as one written as a map, where no key has an equals
/// sign in it.
pub proof fn list_and_map_agree(pairs: Seq<(String, String)>)
    requires
        forall|i: int| 0 <= i < pairs.len() ==> !(#[trigger] pairs[i]).0@.contains('='),
    ensures
        entries_map(entries_of(pairs)) == text_values(crate::text_map::pairs_map(pairs)),
    decreases pairs.len(),
{
    let map = crate::text_map::pairs_map(pairs);
    if pairs.len() == 0 {
        assert(text_values(map) =~= Map::empty());
    } else {
        let front = pairs.drop_last();
        let last = pairs.last();
        assert(!pairs[pairs.len() - 1].0@.contains('='));
        list_and_map_agree(front);
        assert(entries_of(pairs).drop_last() =~= entries_of(front));
        entry_reads_back(last.0@, last.1@);
        assert(text_values(map) =~= text_values(crate::text_map::pairs_map(front)).insert(
            last.0@,
            last.1@,
        ));
    }
}

/// Of two entries with the same key the later one counts, and an entry changes nothing of the other
/// keys.
pub proof fn later_entries_count(
    entries: Seq<Seq<char>>,
    key: Seq<char>,
    value: Seq<char>,
    other: Seq<char>,
)
    requires
        !key.contains('='),
        other != key,
    ensures
        ({
            let more = entries_map(entries.push(key + seq!['='] + value));
            &&& more.contains_key(key)
            &&& more[key] == value
            &&& more.contains_key(other) == entries_map(entries).contains_key(other)
            &&& more.contains_key(other) ==> more[other] == entries_map(entries)[other]
        }),
        entries_map(Seq::empty()) == Map::<Seq<char>, Seq<char>>::empty(),
{
    let entry = key + seq!['='] + value;
    entry_reads_back(key, value);
    assert(entries.push(entry).drop_last() =~= entries);
}

/// The tags of a peer are what is written, whether as one tag or as a list, and none where nothing
/// is.
pub proof fn tags_are_as_written(tag: String, tags: Vec<String>)
    ensures
        source_tags(Some(TagSource::One(tag))) == seq![tag@],
        source_tags(Some(TagSource::List(tags))).len() == tags@.len(),
        forall|k: int|
            0 <= k < tags@.len() ==> #[trigger] source_tags(Some(TagSource::List(tags)))[k]
                == tags@[k]@,
        source_tags(Some(TagSource::Nothing)).len() == 0,
        source_tags(None).len() == 0,
{
}

/// What a host is given in a configuration file is what is configured, and what is left out is
/// empty.
pub proof fn hosts_are_as_written(source: HostSource)
    ensures
        source.meaning().address == source.address@,
        source.meaning().ssh_user == source.ssh_user@,
        source.meaning().ssh_auth == source.ssh_auth@,
        source.meaning().base_port == source.base_port,
        source.name matches Some(name) ==> source.meaning().display_name() == name@,
        source.name is None ==> source.meaning().display_name() == source.address@,
        source.tags is None ==> source.meaning().tags.len() == 0,
        source.tags matches Some(tags) ==> source.meaning().tags == text::texts(tags@),
{
}

/// What a peer is given in a configuration file is what is configured, and what is left out is
/// empty.
pub proof fn peers_are_as_written(source: PeerSource)
    ensures
        source.meaning().name == source.name@,
        source.meaning().image == source.image@,
        source.bootstrap matches Some(list) ==> source.meaning().bootstrap == peer_names(list@),
        source.bootstrap is None ==> source.meaning().bootstrap.len() == 0,
        source.environment matches Some(env) ==> source.meaning().environment == text_values(env@),
        source.environment is None ==> source.meaning().environment == Map::<
            Seq<char>,
            Seq<char>,
        >::empty(),
        source.runs_on matches Some(TagSource::List(tags)) ==> source.meaning().runs_on
            == text::texts(tags@),
        source.runs_on matches Some(TagSource::One(tag)) ==> source.meaning().runs_on == seq![tag@],
        source.runs_on is None ==> source.meaning().runs_on.len() == 0,
{
}

/// Hosts and peers are configured in the order in which they are written, all of them.
pub proof fn nothing_written_is_lost(hosts: Seq<HostSource>, peers: Seq<PeerSource>, i: int)
    ensures
        hosts_meaning(hosts).len() == hosts.len(),
        peers_meaning(peers).len() == peers.len(),
        0 <= i < hosts.len() ==> hosts_meaning(hosts)[i].address == hosts[i].address@
            && hosts_meaning(hosts)[i].base_port == hosts[i].base_port,
        0 <= i < peers.len() ==> peers_meaning(peers)[i].name == peers[i].name@
            && peers_meaning(peers)[i].image == peers[i].image@,
{
}

} // verus!
