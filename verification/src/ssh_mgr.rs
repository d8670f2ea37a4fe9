//! Remote command execution: what the result of a command means, and how a host is logged in to.
use vstd::prelude::*;
use vstd::utf8::*;

use crate::config::HostConfig;
use crate::outside;
use crate::text;

verus! {

/// The result of a remote command.
#[derive(Debug)]
pub enum ExitStatus {
    /// The command ended with code 0; this is what it wrote to its standard output.
    Success(String),
    /// The command ended with another code; this is what it wrote to its standard error, or to its
    /// standard output where the former is blank.
    Failed(String),
}

/// What the result of a remote command says.
pub enum ExitView {
    Success(Seq<char>),
    Failed(Seq<char>),
}

impl View for ExitStatus {
    type V = ExitView;

    open spec fn view(&self) -> ExitView {
        match self {
            ExitStatus::Success(s) => ExitView::Success(s@),
            ExitStatus::Failed(s) => ExitView::Failed(s@),
        }
    }
}

/// What a command means that ended with `code` and wrote `stdout` and `stderr`.
pub open spec fn exit_meaning(code: i32, stdout: Seq<char>, stderr: Seq<char>) -> ExitView {
    if code == 0 {
        ExitView::Success(stdout)
    } else if text::trimmed(stderr).len() == 0 {
        ExitView::Failed(stdout)
    } else {
        ExitView::Failed(stderr)
    }
}

impl ExitStatus {
    /// The result of a command that ended with `code` and wrote `stdout` and `stderr`.
    pub fn from_output(code: i32, stdout: String, stderr: String) -> (r: Self)
        ensures
            r@ == exit_meaning(code, stdout@, stderr@),
    {
        if code == 0 {
            return ExitStatus::Success(stdout);
        }
        let blank = text::char_count(text::trim(stderr.as_str()).as_str()) == 0;
        if blank {
            ExitStatus::Failed(stdout)
        } else {
            ExitStatus::Failed(stderr)
        }
    }
}

/// How a remote command went: it ran and has a result, or it could not be run.
pub enum ExecOutcome {
    Ran(ExitStatus),
    Broken(String),
}

/// A user and a host as `user@host`.
pub open spec fn login(host: HostConfig) -> Seq<char> {
    host.ssh_user@ + "@"@ + host.address@
}

/// A user and a host as `user@host`.
fn login_text(host: &HostConfig) -> (r: String)
    ensures
        r@ == login(*host),
{
    let mut out = host.ssh_user.clone();
    out.push_str("@");
    out.push_str(host.address.as_str());
    out
}

/// The address to connect to.
pub fn connect_target(host: &HostConfig) -> (r: String)
    ensures
        r@ == host.address@ + ":22"@,
{
    let mut out = host.address.clone();
    out.push_str(":22");
    out
}

/// Whether a host is logged in to with the keys of the agent, and not with a key file.
pub fn uses_agent(host: &HostConfig) -> (r: bool)
    ensures
        r == (outside::lowercase(host.ssh_auth@) == "agent"@),
        is_ascii_chars(host.ssh_auth@) ==> r == (text::ascii_lowered(host.ssh_auth@) == "agent"@),
{
    let lower = host.ssh_auth.as_str().to_lowercase();
    text::same_text(lower.as_str(), "agent")
}

/// The message for an agent without keys.
pub open spec fn no_identities_message(host: HostConfig) -> Seq<char> {
    "SSH agent has no identities loaded for "@ + login(host)
}

/// The message for an agent whose keys were all refused.
pub open spec fn identities_refused_message(host: HostConfig, count: nat) -> Seq<char> {
    "SSH agent auth failed for "@ + login(host) + ": none of "@ + text::decimal(count)
        + " loaded identities were accepted"@
}

/// What to do next to log in with an agent.
pub enum AgentStep {
    /// Offer the key at this position.
    Offer(usize),
    /// The login succeeded.
    Done,
    /// The login failed.
    Failed(String),
}

/// What to do next to log in with an agent that has `count` keys, of which the first `tried` were
/// offered and the last of these was accepted or none was: the keys are offered one after the other
/// until one is accepted.
pub fn agent_login(host: &HostConfig, count: usize, tried: usize, accepted: bool) -> (r: AgentStep)
    ensures
        if count == 0 {
            r matches AgentStep::Failed(message) && message@ == no_identities_message(*host)
        } else if accepted {
            r is Done
        } else if tried < count {
            r == AgentStep::Offer(tried)
        } else {
            r matches AgentStep::Failed(message) && message@ == identities_refused_message(
                *host,
                count as nat,
            )
        },
{
    if count == 0 {
        let mut out = "SSH agent has no identities loaded for ".to_owned();
        out.push_str(login_text(host).as_str());
        return AgentStep::Failed(out);
    }
    if accepted {
        return AgentStep::Done;
    }
    if tried < count {
        return AgentStep::Offer(tried);
    }
    let mut out = "SSH agent auth failed for ".to_owned();
    out.push_str(login_text(host).as_str());
    out.push_str(": none of ");
    out.push_str(text::decimal_of(count as u128).as_str());
    out.push_str(" loaded identities were accepted");
    AgentStep::Failed(out)
}

/// The message for a key file that was refused.
pub fn key_file_failure(host: &HostConfig, key_path: &str) -> (r: String)
    ensures
        r@ == "SSH key auth failed for "@ + login(*host) + " with key "@ + key_path@,
{
    let mut out = "SSH key auth failed for ".to_owned();
    out.push_str(login_text(host).as_str());
    out.push_str(" with key ");
    out.push_str(key_path);
    out
}

/// A path below another one: an absolute path stands for itself, and there is exactly one separator
/// between the two unless the first is empty.
pub open spec fn joined_path(base: Seq<char>, rest: Seq<char>) -> Seq<char> {
    if rest.len() > 0 && rest[0] == '/' {
        rest
    } else if base.len() > 0 && base.last() != '/' {
        base + seq!['/'] + rest
    } else {
        base + rest
    }
}

/// A path with `~/` at its beginning replaced by the home directory, where there is one.
pub open spec fn expanded(path: Seq<char>, home: Option<Seq<char>>) -> Seq<char> {
    match home {
        Some(home) if text::begins_with(path, "~/"@) => joined_path(home, path.skip(2)),
        _ => path,
    }
}

/// The text of an optional borrowed string.
pub open spec fn option_str(s: Option<&str>) -> Option<Seq<char>> {
    match s {
        Some(s) => Some(s@),
        None => None,
    }
}

/// Replaces `~/` at the beginning of a path by the home directory, where there is one.
pub fn shellexpand(path: &str, home: Option<&str>) -> (r: String)
    ensures
        r@ == expanded(path@, option_str(home)),
{
    let cs = text::chars_of(path);
    proof {
        reveal_strlit("~/");
    }
    match home {
        Some(home) if text::starts_with(&cs, "~/") => {
            let rest = text::substring(&cs, 2, cs.len());
            assert(rest@ == path@.skip(2));
            if cs.len() > 2 && cs[2] == '/' {
                return rest;
            }
            let base = text::chars_of(home);
            let mut out = home.to_owned();
            if base.len() > 0 && base[base.len() - 1] != '/' {
                out.push('/');
                assert(out@ =~= home@ + seq!['/']);
            }
            out.push_str(rest.as_str());
            out
        },
        _ => path.to_owned(),
    }
}

/// A path that does not begin with `~/` is left as it is.
pub proof fn other_paths_stay(path: Seq<char>, home: Option<Seq<char>>)
    requires
        !text::begins_with(path, "~/"@),
    ensures
        expanded(path, home) == path,
{
}

/// A relative path below the home directory: the directory, one separator, the path.
pub proof fn home_paths_expand(home: Seq<char>, rest: Seq<char>)
    requires
        home.len() > 0 && home.last() != '/',
        rest.len() > 0 ==> rest[0] != '/',
    ensures
        expanded("~/"@ + rest, Some(home)) == home + seq!['/'] + rest,
{
    reveal_strlit("~/");
    assert(("~/"@ + rest).take(2) =~= "~/"@);
    assert(("~/"@ + rest).skip(2) =~= rest);
}

/// A command succeeds if and only if it ends with code 0, whatever it writes; one that fails tells
/// what it wrote to its standard error, all of it, or to its standard output where the former holds
/// nothing but white space.
pub proof fn codes_decide(code: i32, stdout: Seq<char>, stderr: Seq<char>)
    ensures
        exit_meaning(0, stdout, stderr) == ExitView::Success(stdout),
        exit_meaning(code, stdout, stderr) is Success <==> code == 0,
        code != 0 && (exists|k: int|
            0 <= k < stderr.len() && !text::is_white_space(#[trigger] stderr[k])) ==> exit_meaning(
            code,
            stdout,
            stderr,
        ) == ExitView::Failed(stderr),
        code != 0 && (forall|k: int|
            0 <= k < stderr.len() ==> text::is_white_space(#[trigger] stderr[k])) ==> exit_meaning(
            code,
            stdout,
            stderr,
        ) == ExitView::Failed(stdout),
{
    let cut = text::trimming_takes_white_space(stderr);
    if text::trimmed(stderr).len() > 0 {
        assert(!text::is_white_space(stderr[cut.0]));
    } else {
        assert forall|k: int| 0 <= k < stderr.len() implies text::is_white_space(
            #[trigger] stderr[k],
        ) by {}
    }
}

/// Of a path below the home directory nothing is lost: it ends with what follows the `~/`, and
/// without a home directory it stays.
pub proof fn expanded_paths_keep_their_ends(home: Option<Seq<char>>, rest: Seq<char>)
    ensures
        expanded("~/"@ + rest, None) == "~/"@ + rest,
        ({
            let whole = expanded("~/"@ + rest, home);
            whole.len() >= rest.len() && whole.skip(whole.len() - rest.len()) == rest
        }),
{
    reveal_strlit("~/");
    let path = "~/"@ + rest;
    assert(path.take(2) =~= "~/"@);
    assert(path.skip(2) =~= rest);
    let whole = expanded(path, home);
    assert(whole.skip(whole.len() - rest.len()) =~= rest);
}

/// A path below the home directory begins with that directory and has a separator behind it, unless
/// what follows the `~/` is absolute or there is no directory to speak of.
pub proof fn home_comes_first(home: Seq<char>, rest: Seq<char>)
    requires
        home.len() > 0,
        rest.len() > 0 ==> rest[0] != '/',
    ensures
        ({
            let whole = expanded("~/"@ + rest, Some(home));
            &&& whole.len() > rest.len()
            &&& whole.take(home.len() as int) == home
            &&& whole[whole.len() - rest.len() - 1] == '/'
            &&& whole.len() == home.len() + rest.len() + if home.last() == '/' {
                0int
            } else {
                1
            }
        }),
{
    reveal_strlit("~/");
    let path = "~/"@ + rest;
    assert(path.take(2) =~= "~/"@);
    assert(path.skip(2) =~= rest);
    let whole = expanded(path, Some(home));
    assert(whole.take(home.len() as int) =~= home);
}

} // verus!
