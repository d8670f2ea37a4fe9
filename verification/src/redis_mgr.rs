//! The local Redis container: the commands that start and stop it, and the client for it.
use vstd::prelude::*;

use crate::config::RedisConfig;
use crate::outside;
use crate::text;

verus! {

/// The command that makes Redis announce changes of string keys.
pub open spec fn notifications_command() -> Seq<Seq<char>> {
    seq!["CONFIG"@, "SET"@, "notify-keyspace-events"@, "K$"@]
}

/// The command that makes Redis announce changes of string keys.
pub fn keyspace_notifications_command() -> (r: Vec<String>)
    ensures
        text::texts(r@) == notifications_command(),
{
    let mut args = text::no_texts();
    text::push_text(&mut args, "CONFIG");
    text::push_text(&mut args, "SET");
    text::push_text(&mut args, "notify-keyspace-events");
    text::push_text(&mut args, "K$");
    assert(text::texts(args@) =~= notifications_command());
    args
}

/// A client for a Redis server that is already there, at the given address.
pub fn external_client(url: &str) -> (r: Result<redis::Client, redis::RedisError>)
    ensures
        match r {
            Ok(client) => outside::redis_target(url@) == Some(outside::client_target(client)),
            Err(_) => outside::redis_target(url@) is None,
        },
{
    outside::open_client(url)
}

/// A local Redis container.
pub struct RedisManager {
    container_name: String,
}

impl View for RedisManager {
    type V = Seq<char>;

    closed spec fn view(&self) -> Seq<char> {
        self.container_name@
    }
}

/// The address of the Redis server at `host` and `port`.
pub open spec fn redis_address(host: Seq<char>, port: u16) -> Seq<char> {
    "redis://"@ + host + ":"@ + text::decimal(port as nat)
}

/// The address of the Redis server at `host` and `port`, as it is given to the peers.
pub fn redis_url(host: &str, port: u16) -> (r: String)
    ensures
        r@ == redis_address(host@, port),
{
    let mut out = "redis://".to_owned();
    out.push_str(host);
    out.push_str(":");
    out.push_str(text::decimal_of(port as u128).as_str());
    out
}

impl RedisManager {
    /// The manager of the container `tm-redis`.
    pub fn new() -> (r: Self)
        ensures
            r@ == "tm-redis"@,
    {
        RedisManager { container_name: "tm-redis".to_owned() }
    }

    /// The arguments with which `docker` removes the container, running or not.
    pub fn remove_args(&self) -> (r: Vec<String>)
        ensures
            text::texts(r@) == seq!["rm"@, "-f"@, self@],
    {
        let mut args = text::no_texts();
        text::push_text(&mut args, "rm");
        text::push_text(&mut args, "-f");
        text::push_text(&mut args, self.container_name.as_str());
        assert(text::texts(args@) =~= seq!["rm"@, "-f"@, self@]);
        args
    }

    /// The arguments with which `docker` starts the container, with the Redis port bound to the
    /// configured one.
    pub fn run_args(&self, config: &RedisConfig) -> (r: Vec<String>)
        ensures
            text::texts(r@) == seq![
                "run"@,
                "-d"@,
                "--name"@,
                self@,
                "-p"@,
                text::decimal(config.port as nat) + ":6379"@,
                config.image@,
            ],
    {
        let mut binding = text::decimal_of(config.port as u128);
        binding.push_str(":6379");
        let mut args = text::no_texts();
        text::push_text(&mut args, "run");
        text::push_text(&mut args, "-d");
        text::push_text(&mut args, "--name");
        text::push_text(&mut args, self.container_name.as_str());
        text::push_text(&mut args, "-p");
        text::push_text(&mut args, binding.as_str());
        text::push_text(&mut args, config.image.as_str());
        assert(text::texts(args@) =~= seq![
            "run"@,
            "-d"@,
            "--name"@,
            self@,
            "-p"@,
            text::decimal(config.port as nat) + ":6379"@,
            config.image@,
        ]);
        args
    }

    /// Judges how starting the container went, from the text of the error.
    pub fn read_start(&self, success: bool, shown: &str) -> (r: Result<(), String>)
        ensures
            match r {
                Ok(()) => success,
                Err(message) => !success && message@ == "failed to start Redis container: "@
                    + shown@,
            },
    {
        if success {
            return Ok(());
        }
        let mut out = "failed to start Redis container: ".to_owned();
        out.push_str(shown);
        Err(out)
    }

    /// Judges how starting the container went.
    pub fn start(&self, success: bool, stderr: &[u8]) -> (r: Result<(), String>)
        ensures
            match r {
                Ok(()) => success,
                Err(message) => !success && message@ == "failed to start Redis container: "@
                    + outside::lossy_text(stderr@),
            },
    {
        self.read_start(success, outside::text_of_bytes(stderr).as_str())
    }

    /// What to tell of how stopping the container went.
    pub open spec fn stop_note(&self, success: bool, shown: Seq<char>) -> Seq<char> {
        if success {
            "stopped Redis container '"@ + self@ + "'"@
        } else {
            "failed to stop Redis container: "@ + shown
        }
    }

    /// Judges how stopping the container went, from the text of the error.
    pub fn read_stop(&self, success: bool, shown: &str) -> (r: (bool, String))
        ensures
            r.0 == !success,
            r.1@ == self.stop_note(success, shown@),
    {
        if success {
            let mut out = "stopped Redis container '".to_owned();
            out.push_str(self.container_name.as_str());
            out.push_str("'");
            (false, out)
        } else {
            let mut out = "failed to stop Redis container: ".to_owned();
            out.push_str(shown);
            (true, out)
        }
    }

    /// Judges how stopping the container went: whether to warn, and what to tell.
    pub fn stop(&self, success: bool, stderr: &[u8]) -> (r: (bool, String))
        ensures
            r.0 == !success,
            r.1@ == self.stop_note(success, outside::lossy_text(stderr@)),
    {
        self.read_stop(success, outside::text_of_bytes(stderr).as_str())
    }

    /// A client for the container, which listens at `port` of this machine; there is always one.
    pub fn client(&self, port: u16) -> (r: Result<redis::Client, redis::RedisError>)
        ensures
            r matches Ok(client) && outside::redis_target(redis_address("127.0.0.1"@, port)) == Some(
                outside::client_target(client),
            ),
    {
        outside::open_client(redis_url("127.0.0.1", port).as_str())
    }
}

} // verus!
