//! The containers of the peers: the commands that start, stop and remove them, and what their
//! results mean.
use vstd::prelude::*;

use crate::config;
use crate::config::PeerAssignment;
use crate::docker_mgr;
use crate::ssh_mgr::{ExecOutcome, ExitStatus};
use crate::text;
use crate::text_map;

verus! {

// ---------------------------------------------------------------------------------------------
// Names
// ---------------------------------------------------------------------------------------------
/// The name of a peer's container.
pub open spec fn container_name(peer: Seq<char>) -> Seq<char> {
    "tm-"@ + peer
}

/// The directory for a peer's configuration on its host.
pub open spec fn config_dir(peer: Seq<char>) -> Seq<char> {
    "~/peer-config/"@ + container_name(peer) + "-config"@
}

/// The command that removes a peer's container, running or not.
pub open spec fn remove_command(peer: Seq<char>) -> Seq<char> {
    "docker rm -f "@ + container_name(peer)
}

pub fn container_name_of(peer: &str) -> (r: String)
    ensures
        r@ == container_name(peer@),
{
    let mut out = "tm-".to_owned();
    out.push_str(peer);
    out
}

fn config_dir_of(peer: &str) -> (r: String)
    ensures
        r@ == config_dir(peer@),
{
    let mut out = "~/peer-config/".to_owned();
    out.push_str(container_name_of(peer).as_str());
    out.push_str("-config");
    out
}

/// The command that removes a peer's container, running or not: it stops the peer.
pub fn remove_command_of(peer: &str) -> (r: String)
    ensures
        r@ == remove_command(peer@),
{
    let mut out = "docker rm -f ".to_owned();
    out.push_str(container_name_of(peer).as_str());
    out
}

// ---------------------------------------------------------------------------------------------
// The environment
// ---------------------------------------------------------------------------------------------
/// Keys and values as texts.
pub open spec fn pair_texts(pairs: Seq<(String, String)>) -> Seq<(Seq<char>, Seq<char>)> {
    Seq::new(pairs.len(), |i: int| (pairs[i].0@, pairs[i].1@))
}

/// The variables that are always set.
pub open spec fn system_variables(
    redis_url: Seq<char>,
    peer: Seq<char>,
    listen: Seq<char>,
    host: Seq<char>,
) -> Seq<(Seq<char>, Seq<char>)> {
    seq![
        ("REDIS_URL"@, redis_url),
        ("PEER_NAME"@, peer),
        ("LISTEN_ADDR"@, listen),
        ("HOST_NAME"@, host),
    ]
}

/// The variables of a peer's container, in the order in which they are set: the configured ones
/// first, then those that are always set.
pub open spec fn variables(assignment: PeerAssignment, redis_url: Seq<char>) -> Seq<
    (Seq<char>, Seq<char>),
> {
    pair_texts(assignment.extra_env.pairs()) + system_variables(
        redis_url,
        assignment.peer_name@,
        assignment.listen_addr@,
        assignment.host@.display_name(),
    )
}

/// The argument that sets a variable.
pub open spec fn variable_arg(variable: (Seq<char>, Seq<char>)) -> Seq<char> {
    "-e "@ + variable.0 + "="@ + variable.1
}

/// The arguments that set variables, with spaces between them.
pub open spec fn variable_args(list: Seq<(Seq<char>, Seq<char>)>) -> Seq<char> {
    text::joined(Seq::new(list.len(), |i: int| variable_arg(list[i])), " "@)
}

/// The environment that results from setting variables one after the other.
pub open spec fn resulting_environment(list: Seq<(Seq<char>, Seq<char>)>) -> Map<
    Seq<char>,
    Seq<char>,
>
    decreases list.len(),
{
    if list.len() == 0 {
        Map::empty()
    } else {
        resulting_environment(list.drop_last()).insert(list.last().0, list.last().1)
    }
}

proof fn resulting_environment_of_pairs(pairs: Seq<(String, String)>)
    ensures
        resulting_environment(pair_texts(pairs)) == config::text_values(
            text_map::pairs_map(pairs),
        ),
    decreases pairs.len(),
{
    if pairs.len() == 0 {
        assert(config::text_values(text_map::pairs_map(pairs)) =~= Map::empty());
    } else {
        resulting_environment_of_pairs(pairs.drop_last());
        assert(pair_texts(pairs).drop_last() =~= pair_texts(pairs.drop_last()));
        assert(config::text_values(text_map::pairs_map(pairs)) =~= config::text_values(
            text_map::pairs_map(pairs.drop_last()),
        ).insert(pairs.last().0@, pairs.last().1@));
    }
}

/// The variables that are always set cannot be overridden: whatever is configured, they have their
/// values, and all other variables are as configured.
pub proof fn system_variables_cannot_be_overridden(
    assignment: PeerAssignment,
    redis_url: Seq<char>,
)
    ensures
        resulting_environment(variables(assignment, redis_url)) == config::text_values(
            assignment.extra_env@,
        ).insert("REDIS_URL"@, redis_url).insert("PEER_NAME"@, assignment.peer_name@).insert(
            "LISTEN_ADDR"@,
            assignment.listen_addr@,
        ).insert("HOST_NAME"@, assignment.host@.display_name()),
{
    let base = pair_texts(assignment.extra_env.pairs());
    let system = system_variables(
        redis_url,
        assignment.peer_name@,
        assignment.listen_addr@,
        assignment.host@.display_name(),
    );
    resulting_environment_of_pairs(assignment.extra_env.pairs());
    let one = base.push(system[0]);
    let two = one.push(system[1]);
    let three = two.push(system[2]);
    let four = three.push(system[3]);
    assert(one.drop_last() =~= base);
    assert(two.drop_last() =~= one);
    assert(three.drop_last() =~= two);
    assert(four.drop_last() =~= three);
    assert(resulting_environment(one) == resulting_environment(base).insert(
        system[0].0,
        system[0].1,
    ));
    assert(resulting_environment(two) == resulting_environment(one).insert(
        system[1].0,
        system[1].1,
    ));
    assert(resulting_environment(three) == resulting_environment(two).insert(
        system[2].0,
        system[2].1,
    ));
    assert(variables(assignment, redis_url) =~= four);
}

/// The argument that sets a variable.
fn set_variable(args: &mut Vec<String>, key: &str, value: &str)
    ensures
        text::texts(final(args)@) == text::texts(old(args)@).push(variable_arg((key@, value@))),
{
    let mut out = "-e ".to_owned();
    out.push_str(key);
    out.push_str("=");
    out.push_str(value);
    text::push_text(args, out.as_str());
}

/// The arguments that set the variables of a peer's container.
fn environment_args(assignment: &PeerAssignment, redis_url: &str) -> (r: String)
    ensures
        r@ == variable_args(variables(*assignment, redis_url@)),
{
    let pairs = assignment.extra_env.entries();
    let ghost list = variables(*assignment, redis_url@);
    let ghost wanted = Seq::new(list.len(), |i: int| variable_arg(list[i]));
    let mut args = text::no_texts();
    let mut i: usize = 0;
    assert(wanted.take(0) =~= Seq::empty());
    while i < pairs.len()
        invariant
            i <= pairs@.len(),
            pairs@ == assignment.extra_env.pairs(),
            list == variables(*assignment, redis_url@),
            wanted == Seq::new(list.len(), |i: int| variable_arg(list[i])),
            text::texts(args@) == wanted.take(i as int),
        decreases pairs@.len() - i,
    {
        set_variable(&mut args, pairs[i].0.as_str(), pairs[i].1.as_str());
        assert(list[i as int] == (pairs@[i as int].0@, pairs@[i as int].1@));
        assert(wanted.take(i + 1) =~= wanted.take(i as int).push(wanted[i as int]));
        i = i + 1;
    }
    set_variable(&mut args, "REDIS_URL", redis_url);
    set_variable(&mut args, "PEER_NAME", assignment.peer_name.as_str());
    set_variable(&mut args, "LISTEN_ADDR", assignment.listen_addr.as_str());
    set_variable(&mut args, "HOST_NAME", assignment.host.display_name());
    proof {
        let n = pairs@.len() as int;
        assert(list[n] == ("REDIS_URL"@, redis_url@));
        assert(list[n + 1] == ("PEER_NAME"@, assignment.peer_name@));
        assert(list[n + 2] == ("LISTEN_ADDR"@, assignment.listen_addr@));
        assert(list[n + 3] == ("HOST_NAME"@, assignment.host@.display_name()));
        assert(text::texts(args@) =~= wanted);
    }
    text::join(&args, " ")
}

// ---------------------------------------------------------------------------------------------
// Starting a peer
// ---------------------------------------------------------------------------------------------
/// The command that starts a peer's container.
pub open spec fn run_command(assignment: PeerAssignment, redis_url: Seq<char>) -> Seq<char> {
    let peer = assignment.peer_name@;
    let port = text::decimal(assignment.port as nat);
    "docker run -d --name "@ + container_name(peer) + " -v "@ + config_dir(peer) + ":/config -p "@
        + port + ":"@ + port + "/udp "@ + variable_args(variables(assignment, redis_url)) + " "@
        + assignment.docker_image@
}

/// The command that starts a peer's container.
pub fn run_command_of(assignment: &PeerAssignment, redis_url: &str) -> (r: String)
    ensures
        r@ == run_command(*assignment, redis_url@),
{
    let name = assignment.peer_name.as_str();
    let port = text::decimal_of(assignment.port as u128);
    let mut out = "docker run -d --name ".to_owned();
    out.push_str(container_name_of(name).as_str());
    out.push_str(" -v ");
    out.push_str(config_dir_of(name).as_str());
    out.push_str(":/config -p ");
    out.push_str(port.as_str());
    out.push_str(":");
    out.push_str(port.as_str());
    out.push_str("/udp ");
    out.push_str(environment_args(assignment, redis_url).as_str());
    out.push_str(" ");
    out.push_str(assignment.docker_image.as_str());
    out
}

/// What is being run on the host while a peer is started.
#[derive(Clone, Copy, PartialEq, Eq, Structural)]
pub enum StartPhase {
    /// An old container of the peer is being removed.
    Removing,
    /// The directory for the configuration is being made.
    MakingDirectory,
    /// The container is being started.
    Running,
}

/// What to do next while a peer is started.
pub enum StartAction {
    /// Run a command on the host.
    Exec(StartPhase, String),
    /// The container runs: this is the command that started it, and what to log.
    Started(String, String),
    /// The peer could not be started: log the error.
    Failed(String),
    /// The host could not be reached.
    Unreachable(String),
}

/// What an action says.
pub enum StartView {
    Exec(StartPhase, Seq<char>),
    Started(Seq<char>, Seq<char>),
    Failed(Seq<char>),
    Unreachable(Seq<char>),
}

impl View for StartAction {
    type V = StartView;

    open spec fn view(&self) -> StartView {
        match self {
            StartAction::Exec(phase, command) => StartView::Exec(*phase, command@),
            StartAction::Started(command, note) => StartView::Started(command@, note@),
            StartAction::Failed(message) => StartView::Failed(message@),
            StartAction::Unreachable(message) => StartView::Unreachable(message@),
        }
    }
}

/// What is told where a host cannot be reached.
pub open spec fn no_session_message(address: Seq<char>) -> Seq<char> {
    "no SSH session for "@ + address
}

pub fn no_session(address: &str) -> (r: String)
    ensures
        r@ == no_session_message(address@),
{
    let mut out = "no SSH session for ".to_owned();
    out.push_str(address);
    out
}

/// The first thing to do to start a peer: remove its old container, where its host can be reached.
pub fn start_peer(assignment: &PeerAssignment, has_session: bool) -> (r: StartAction)
    ensures
        r@ == if has_session {
            StartView::Exec(StartPhase::Removing, remove_command(assignment.peer_name@))
        } else {
            StartView::Unreachable(no_session_message(assignment.host.address@))
        },
{
    if has_session {
        StartAction::Exec(
            StartPhase::Removing,
            remove_command_of(assignment.peer_name.as_str()),
        )
    } else {
        StartAction::Unreachable(no_session(assignment.host.address.as_str()))
    }
}

/// What is told of a container that could not be removed.
pub open spec fn removal_warning(peer: Seq<char>, err: Seq<char>) -> Seq<char> {
    "failed to remove container "@ + container_name(peer) + ": "@ + err
}

/// What to warn of after a peer's container was to be removed: nothing where that went well.
pub fn check_removal(peer: &str, outcome: &ExecOutcome) -> (r: Option<String>)
    ensures
        match *outcome {
            ExecOutcome::Ran(ExitStatus::Success(_)) => r is None,
            ExecOutcome::Ran(ExitStatus::Failed(err)) => r matches Some(warning) && warning@
                == removal_warning(peer@, err@),
            ExecOutcome::Broken(err) => r matches Some(warning) && warning@ == removal_warning(
                peer@,
                err@,
            ),
        },
{
    let err = match outcome {
        ExecOutcome::Ran(ExitStatus::Success(_)) => {
            return None;
        },
        ExecOutcome::Ran(ExitStatus::Failed(err)) => err,
        ExecOutcome::Broken(err) => err,
    };
    let mut out = "failed to remove container ".to_owned();
    out.push_str(container_name_of(peer).as_str());
    out.push_str(": ");
    out.push_str(err.as_str());
    Some(out)
}

/// What is logged when a peer's container runs.
pub open spec fn started_note(assignment: PeerAssignment, output: Seq<char>) -> Seq<char> {
    "started peer '"@ + assignment.peer_name@ + "' on "@ + assignment.host.address@ + ":"@
        + text::decimal(assignment.port as nat) + " (container: "@ + text::trimmed(output) + ")"@
}

/// What to do after a phase of starting a peer has ended: an old container that could not be removed
/// is no hindrance, anything else that fails is.
pub open spec fn start_decision(
    assignment: PeerAssignment,
    redis_url: Seq<char>,
    phase: StartPhase,
    outcome: ExecOutcome,
) -> StartView {
    let peer = assignment.peer_name@;
    let host = assignment.host.address@;
    match (phase, outcome) {
        (StartPhase::Removing, _) => StartView::Exec(
            StartPhase::MakingDirectory,
            "mkdir -p "@ + config_dir(peer),
        ),
        (_, ExecOutcome::Broken(err)) => StartView::Unreachable(err@),
        (StartPhase::MakingDirectory, ExecOutcome::Ran(ExitStatus::Success(_))) => StartView::Exec(
            StartPhase::Running,
            run_command(assignment, redis_url),
        ),
        (StartPhase::MakingDirectory, ExecOutcome::Ran(ExitStatus::Failed(err))) => {
            StartView::Failed(
                docker_mgr::failed_on_host("create "@ + config_dir(peer), host, err@),
            )
        },
        (StartPhase::Running, ExecOutcome::Ran(ExitStatus::Success(output))) => StartView::Started(
            run_command(assignment, redis_url),
            started_note(assignment, output@),
        ),
        (StartPhase::Running, ExecOutcome::Ran(ExitStatus::Failed(err))) => StartView::Failed(
            docker_mgr::failed_on_host("start peer "@ + peer, host, err@),
        ),
    }
}

/// What is logged when a peer's container runs.
fn note_started(assignment: &PeerAssignment, output: &str) -> (r: String)
    ensures
        r@ == started_note(*assignment, output@),
{
    let mut out = "started peer '".to_owned();
    out.push_str(assignment.peer_name.as_str());
    out.push_str("' on ");
    out.push_str(assignment.host.address.as_str());
    out.push_str(":");
    out.push_str(text::decimal_of(assignment.port as u128).as_str());
    out.push_str(" (container: ");
    out.push_str(text::trim(output).as_str());
    out.push_str(")");
    out
}

/// What to do after a phase of starting a peer has ended.
pub fn start_next(
    assignment: &PeerAssignment,
    redis_url: &str,
    phase: StartPhase,
    outcome: &ExecOutcome,
) -> (r: StartAction)
    ensures
        r@ == start_decision(*assignment, redis_url@, phase, *outcome),
{
    let name = assignment.peer_name.as_str();
    match (phase, outcome) {
        (StartPhase::Removing, _) => {
            let mut command = "mkdir -p ".to_owned();
            command.push_str(config_dir_of(name).as_str());
            StartAction::Exec(StartPhase::MakingDirectory, command)
        },
        (_, ExecOutcome::Broken(err)) => StartAction::Unreachable(err.clone()),
        (StartPhase::MakingDirectory, ExecOutcome::Ran(ExitStatus::Success(_))) => {
            StartAction::Exec(StartPhase::Running, run_command_of(assignment, redis_url))
        },
        (StartPhase::MakingDirectory, ExecOutcome::Ran(ExitStatus::Failed(err))) => {
            let mut what = "create ".to_owned();
            what.push_str(config_dir_of(name).as_str());
            StartAction::Failed(
                docker_mgr::explain_failure(
                    what.as_str(),
                    assignment.host.address.as_str(),
                    err.as_str(),
                ),
            )
        },
        (StartPhase::Running, ExecOutcome::Ran(ExitStatus::Success(output))) => {
            StartAction::Started(
                run_command_of(assignment, redis_url),
                note_started(assignment, output.as_str()),
            )
        },
        (StartPhase::Running, ExecOutcome::Ran(ExitStatus::Failed(err))) => {
            let mut what = "start peer ".to_owned();
            what.push_str(name);
            StartAction::Failed(
                docker_mgr::explain_failure(
                    what.as_str(),
                    assignment.host.address.as_str(),
                    err.as_str(),
                ),
            )
        },
    }
}

/// Starting a peer runs at most three commands: each action leads to a later phase or ends the work.
pub proof fn starting_comes_to_an_end(
    assignment: PeerAssignment,
    redis_url: Seq<char>,
    phase: StartPhase,
    outcome: ExecOutcome,
)
    ensures
        match start_decision(assignment, redis_url, phase, outcome) {
            StartView::Exec(next, _) => phase_number(phase) < phase_number(next),
            _ => true,
        },
{
}

/// The place of a phase among the three.
pub open spec fn phase_number(phase: StartPhase) -> int {
    match phase {
        StartPhase::Removing => 0,
        StartPhase::MakingDirectory => 1,
        StartPhase::Running => 2,
    }
}

/// A container runs if and only if the last of the three commands succeeds. An old container is no
/// hindrance, however its removal ended. Of the other two, one that could not be run tells why.
pub proof fn starting_fails_as_its_commands_do(
    assignment: PeerAssignment,
    redis_url: Seq<char>,
    phase: StartPhase,
    outcome: ExecOutcome,
)
    ensures
        ({
            let next = start_decision(assignment, redis_url, phase, outcome);
            &&& next is Started <==> phase == StartPhase::Running && (outcome
                matches ExecOutcome::Ran(ExitStatus::Success(_)))
            &&& next is Unreachable <==> phase != StartPhase::Removing && outcome is Broken
            &&& next is Failed <==> phase != StartPhase::Removing && (outcome
                matches ExecOutcome::Ran(ExitStatus::Failed(_)))
            &&& next matches StartView::Unreachable(message) ==> (outcome matches ExecOutcome::Broken(
                err,
            ) && message == err@)
            &&& next matches StartView::Started(command, _) ==> command == run_command(
                assignment,
                redis_url,
            )
        }),
{
}

/// What is told of a peer that could not be started names the peer and its host, and gives the error.
pub proof fn failed_starts_are_told_whole(
    assignment: PeerAssignment,
    redis_url: Seq<char>,
    phase: StartPhase,
    err: String,
)
    requires
        phase != StartPhase::Removing,
    ensures
        ({
            let outcome = ExecOutcome::Ran(ExitStatus::Failed(err));
            let next = start_decision(assignment, redis_url, phase, outcome);
            &&& next matches StartView::Failed(message)
            &&& text::occurs(assignment.peer_name@, message)
            &&& text::occurs(assignment.host.address@, message)
            &&& text::occurs(err@, message)
        }),
{
    let peer = assignment.peer_name@;
    let host = assignment.host.address@;
    if phase == StartPhase::Running {
        peer_is_told("start peer "@, peer, Seq::empty(), host, err@);
        assert("start peer "@ + peer + Seq::<char>::empty() =~= "start peer "@ + peer);
    } else {
        let start = "create "@ + "~/peer-config/"@ + "tm-"@;
        peer_is_told(start, peer, "-config"@, host, err@);
        assert(start + peer + "-config"@ =~= "create "@ + config_dir(peer));
    }
}

proof fn peer_is_told(
    before: Seq<char>,
    peer: Seq<char>,
    after: Seq<char>,
    host: Seq<char>,
    err: Seq<char>,
)
    ensures
        ({
            let message = docker_mgr::failed_on_host(before + peer + after, host, err);
            &&& text::occurs(peer, message)
            &&& text::occurs(host, message)
            &&& text::occurs(err, message)
        }),
{
    let what = before + peer + after;
    let message = docker_mgr::failed_on_host(what, host, err);
    assert(text::occurs(peer, what)) by {
        text::parts_occur(before, peer, after);
    }
    docker_mgr::failures_are_told_whole(what, host, err);
    assert(text::occurs(peer, message)) by {
        text::occurrences_nest(peer, what, message);
    }
}

/// The command that starts a container names it after the peer, publishes the port of the assignment
/// under the same number, sets every variable, and ends with the image.
pub proof fn containers_run_as_assigned(assignment: PeerAssignment, redis_url: Seq<char>, i: int)
    requires
        0 <= i < assignment.extra_env.pairs().len(),
    ensures
        ({
            let command = run_command(assignment, redis_url);
            let port = text::decimal(assignment.port as nat);
            let pair = assignment.extra_env.pairs()[i];
            &&& text::occurs(" -p "@ + port + ":"@ + port + "/udp "@, command)
            &&& text::occurs("-e "@ + pair.0@ + "="@ + pair.1@, command)
        }),
{
    containers_run_with_system_variables(assignment, redis_url);
    variables_are_set(assignment, redis_url, i);
}

/// The variables that are always set are so in every container, and the image comes last.
pub proof fn containers_run_with_system_variables(assignment: PeerAssignment, redis_url: Seq<char>)
    ensures
        ({
            let command = run_command(assignment, redis_url);
            let port = text::decimal(assignment.port as nat);
            let image = assignment.docker_image@;
            &&& text::occurs("docker run -d --name "@ + "tm-"@ + assignment.peer_name@ + " "@, command)
            &&& text::occurs(" -p "@ + port + ":"@ + port + "/udp "@, command)
            &&& text::occurs("-e "@ + "REDIS_URL"@ + "="@ + redis_url, command)
            &&& text::occurs("-e "@ + "PEER_NAME"@ + "="@ + assignment.peer_name@, command)
            &&& text::occurs("-e "@ + "LISTEN_ADDR"@ + "="@ + assignment.listen_addr@, command)
            &&& text::occurs("-e "@ + "HOST_NAME"@ + "="@ + assignment.host@.display_name(), command)
            &&& command.len() >= image.len()
            &&& command.skip(command.len() - image.len()) == image
        }),
{
    reveal_strlit(":/config -p ");
    reveal_strlit(":/config");
    reveal_strlit(" -p ");
    reveal_strlit(" -v ");
    reveal_strlit(" ");
    reveal_strlit("-v ");
    let command = run_command(assignment, redis_url);
    let peer = assignment.peer_name@;
    let port = text::decimal(assignment.port as nat);
    let image = assignment.docker_image@;
    let list = variables(assignment, redis_url);
    let n = assignment.extra_env.pairs().len() as int;
    variables_are_set(assignment, redis_url, n);
    variables_are_set(assignment, redis_url, n + 1);
    variables_are_set(assignment, redis_url, n + 2);
    variables_are_set(assignment, redis_url, n + 3);
    let start = "docker run -d --name "@ + "tm-"@ + peer + " "@;
    let ports = " -p "@ + port + ":"@ + port + "/udp "@;
    let middle = "-v "@ + config_dir(peer) + ":/config"@;
    let end = variable_args(list) + " "@ + image;
    assert(" -v "@ =~= " "@ + "-v "@);
    assert(":/config -p "@ =~= ":/config"@ + " -p "@);
    assert(command =~= start + middle + ports + end);
    text::parts_occur(Seq::empty(), start, middle + ports + end);
    assert(Seq::<char>::empty() + start + (middle + ports + end) =~= command);
    text::parts_occur(start + middle, ports, end);
    assert(command.skip(command.len() - image.len()) =~= image);
}

/// A variable is set in the command that starts a container.
proof fn variables_are_set(assignment: PeerAssignment, redis_url: Seq<char>, i: int)
    requires
        0 <= i < variables(assignment, redis_url).len(),
    ensures
        text::occurs(
            "-e "@ + variables(assignment, redis_url)[i].0 + "="@ + variables(
                assignment,
                redis_url,
            )[i].1,
            run_command(assignment, redis_url),
        ),
{
    let list = variables(assignment, redis_url);
    let args = Seq::new(list.len(), |i: int| variable_arg(list[i]));
    let command = run_command(assignment, redis_url);
    let end = " "@ + assignment.docker_image@;
    let start = command.take(command.len() - end.len() - variable_args(list).len());
    text::joined_texts_occur(args, " "@, i);
    text::parts_occur(start, variable_args(list), end);
    assert(start + variable_args(list) + end =~= command);
    text::occurrences_nest(variable_arg(list[i]), variable_args(list), command);
}

/// The command that stops a peer on the host at an address, where that can be reached.
pub fn stop_peer(peer_name: &str, host_address: &str, has_session: bool) -> (r: Result<
    String,
    String,
>)
    ensures
        match r {
            Ok(command) => has_session && command@ == remove_command(peer_name@),
            Err(message) => !has_session && message@ == no_session_message(host_address@),
        },
{
    if has_session {
        Ok(remove_command_of(peer_name))
    } else {
        Err(no_session(host_address))
    }
}

/// What is logged when a peer is stopped.
pub fn stopped_note(peer: &str, address: &str) -> (r: String)
    ensures
        r@ == "stopped peer '"@ + peer@ + "' on "@ + address@,
{
    let mut out = "stopped peer '".to_owned();
    out.push_str(peer);
    out.push_str("' on ");
    out.push_str(address);
    out
}

// ---------------------------------------------------------------------------------------------
// Cleaning hosts
// ---------------------------------------------------------------------------------------------
/// What to log, whether as a warning, and what to print.
pub struct HostReport {
    pub warns: bool,
    pub log: String,
    pub print: Option<String>,
}

/// What a report says.
pub struct ReportView {
    pub warns: bool,
    pub log: Seq<char>,
    pub print: Option<Seq<char>>,
}

impl View for HostReport {
    type V = ReportView;

    open spec fn view(&self) -> ReportView {
        ReportView { warns: self.warns, log: self.log@, print: config::option_text(self.print) }
    }
}

/// The command that removes an image.
pub fn remove_image_command(image: &str) -> (r: String)
    ensures
        r@ == "docker rmi -f '"@ + image@ + "'"@,
{
    let mut out = "docker rmi -f '".to_owned();
    out.push_str(image);
    out.push_str("'");
    out
}

/// A line, where lines are printed.
pub open spec fn printed(print: bool, line: Seq<char>) -> Option<Seq<char>> {
    if print {
        Some(line)
    } else {
        None
    }
}

/// The report on an image that was to be removed from a host. A command that could not be run is
/// logged, but not printed.
pub open spec fn removal_report(
    image: Seq<char>,
    address: Seq<char>,
    outcome: ExecOutcome,
    print: bool,
) -> ReportView {
    let place = "'"@ + image + "' on "@ + address;
    match outcome {
        ExecOutcome::Ran(ExitStatus::Success(_)) => ReportView {
            warns: false,
            log: "  removed image "@ + place,
            print: printed(print, "  removed image "@ + place),
        },
        ExecOutcome::Ran(ExitStatus::Failed(err)) => ReportView {
            warns: true,
            log: "failed to remove image "@ + place + ": "@ + err@,
            print: printed(print, "  warning: failed to remove "@ + place + ": "@ + err@),
        },
        ExecOutcome::Broken(err) => ReportView {
            warns: true,
            log: "failed to remove image "@ + place + ": "@ + err@,
            print: None,
        },
    }
}

/// A heading, a place and what went wrong there.
fn explain(heading: &str, place: &str, err: &str) -> (r: String)
    ensures
        r@ == heading@ + place@ + ": "@ + err@,
{
    let mut out = heading.to_owned();
    out.push_str(place);
    out.push_str(": ");
    out.push_str(err);
    out
}

/// A line, where lines are printed.
fn print_line(print: bool, line: String) -> (r: Option<String>)
    ensures
        config::option_text(r) == printed(print, line@),
{
    if print {
        Some(line)
    } else {
        None
    }
}

/// The report on an image that was to be removed from a host.
pub fn remove_images_on_host(
    image: &str,
    host_address: &str,
    outcome: ExecOutcome,
    print: bool,
) -> (r: HostReport)
    ensures
        r@ == removal_report(image@, host_address@, outcome, print),
{
    let mut place = "'".to_owned();
    place.push_str(image);
    place.push_str("' on ");
    place.push_str(host_address);
    match outcome {
        ExecOutcome::Ran(ExitStatus::Success(_)) => {
            let mut log = "  removed image ".to_owned();
            log.push_str(place.as_str());
            let line = log.clone();
            HostReport { warns: false, log, print: print_line(print, line) }
        },
        ExecOutcome::Ran(ExitStatus::Failed(err)) => HostReport {
            warns: true,
            log: explain("failed to remove image ", place.as_str(), err.as_str()),
            print: print_line(
                print,
                explain("  warning: failed to remove ", place.as_str(), err.as_str()),
            ),
        },
        ExecOutcome::Broken(err) => HostReport {
            warns: true,
            log: explain("failed to remove image ", place.as_str(), err.as_str()),
            print: None,
        },
    }
}

/// The command that removes all that Docker no longer needs.
pub fn prune_command() -> (r: &'static str)
    ensures
        r@ == "docker system prune -af"@,
{
    "docker system prune -af"
}

/// The report on a host that was to be pruned. A command that could not be run is logged, but not
/// printed.
pub open spec fn prune_report(address: Seq<char>, outcome: ExecOutcome, print: bool) -> ReportView {
    match outcome {
        ExecOutcome::Ran(ExitStatus::Success(output)) => ReportView {
            warns: false,
            log: "  pruned Docker on "@ + address + ": "@ + text::trimmed(output@),
            print: printed(print, "  pruned Docker on "@ + address),
        },
        ExecOutcome::Ran(ExitStatus::Failed(err)) => ReportView {
            warns: true,
            log: "docker system prune failed on "@ + address + ": "@ + err@,
            print: printed(print, "  warning: prune failed on "@ + address + ": "@ + err@),
        },
        ExecOutcome::Broken(err) => ReportView {
            warns: true,
            log: "docker system prune failed on "@ + address + ": "@ + err@,
            print: None,
        },
    }
}

/// The report on a host that was to be pruned.
pub fn prune_host(host_address: &str, outcome: ExecOutcome, print: bool) -> (r: HostReport)
    ensures
        r@ == prune_report(host_address@, outcome, print),
{
    match outcome {
        ExecOutcome::Ran(ExitStatus::Success(output)) => {
            let mut line = "  pruned Docker on ".to_owned();
            line.push_str(host_address);
            let log = explain(
                "  pruned Docker on ",
                host_address,
                text::trim(output.as_str()).as_str(),
            );
            HostReport { warns: false, log, print: print_line(print, line) }
        },
        ExecOutcome::Ran(ExitStatus::Failed(err)) => HostReport {
            warns: true,
            log: explain("docker system prune failed on ", host_address, err.as_str()),
            print: print_line(
                print,
                explain("  warning: prune failed on ", host_address, err.as_str()),
            ),
        },
        ExecOutcome::Broken(err) => HostReport {
            warns: true,
            log: explain("docker system prune failed on ", host_address, err.as_str()),
            print: None,
        },
    }
}

/// A report warns if and only if the command did not succeed. Something is printed if and only if that
/// is wanted and the command could be run. The log names the host, and the error where there is one.
pub proof fn reports_warn_of_failures(
    image: Seq<char>,
    address: Seq<char>,
    outcome: ExecOutcome,
    print: bool,
)
    ensures
        ({
            let removal = removal_report(image, address, outcome, print);
            let pruning = prune_report(address, outcome, print);
            let succeeded = (outcome matches ExecOutcome::Ran(ExitStatus::Success(_)));
            &&& removal.warns == !succeeded
            &&& pruning.warns == !succeeded
            &&& removal.print is Some <==> print && outcome is Ran
            &&& pruning.print is Some <==> print && outcome is Ran
            &&& text::occurs(image, removal.log)
            &&& text::occurs(address, removal.log)
            &&& text::occurs(address, pruning.log)
            &&& removal.print matches Some(line) ==> text::occurs(image, line) && text::occurs(
                address,
                line,
            )
            &&& pruning.print matches Some(line) ==> text::occurs(address, line)
        }),
        match outcome {
            ExecOutcome::Ran(ExitStatus::Failed(err)) | ExecOutcome::Broken(err) => text::occurs(
                err@,
                removal_report(image, address, outcome, print).log,
            ) && text::occurs(err@, prune_report(address, outcome, print).log),
            _ => true,
        },
{
    let tail = match outcome {
        ExecOutcome::Ran(ExitStatus::Success(_)) => Seq::<char>::empty(),
        ExecOutcome::Ran(ExitStatus::Failed(err)) => ": "@ + err@,
        ExecOutcome::Broken(err) => ": "@ + err@,
    };
    place_is_told("  removed image "@, image, address, tail);
    place_is_told("failed to remove image "@, image, address, tail);
    place_is_told("  warning: failed to remove "@, image, address, tail);
    match outcome {
        ExecOutcome::Ran(ExitStatus::Success(output)) => {
            text::parts_occur("  pruned Docker on "@, address, ": "@ + text::trimmed(output@));
            assert("  pruned Docker on "@ + address + (": "@ + text::trimmed(output@))
                =~= prune_report(address, outcome, print).log);
            text::parts_occur("  pruned Docker on "@, address, tail);
            assert("  pruned Docker on "@ + address + tail =~= "  pruned Docker on "@ + address);
            let place = "'"@ + image + "' on "@ + address;
            assert("  removed image "@ + place + tail =~= "  removed image "@ + place);
        },
        ExecOutcome::Ran(ExitStatus::Failed(err)) | ExecOutcome::Broken(err) => {
            error_is_told(image, address, err@);
        },
    }
}

proof fn place_is_told(heading: Seq<char>, image: Seq<char>, address: Seq<char>, tail: Seq<char>)
    ensures
        text::occurs(image, heading + ("'"@ + image + "' on "@ + address) + tail),
        text::occurs(address, heading + ("'"@ + image + "' on "@ + address) + tail),
{
    let whole = heading + ("'"@ + image + "' on "@ + address) + tail;
    text::parts_occur(heading + "'"@, image, "' on "@ + address + tail);
    assert(heading + "'"@ + image + ("' on "@ + address + tail) =~= whole);
    text::parts_occur(heading + "'"@ + image + "' on "@, address, tail);
    assert(heading + "'"@ + image + "' on "@ + address + tail =~= whole);
}

proof fn error_is_told(image: Seq<char>, address: Seq<char>, err: Seq<char>)
    ensures
        ({
            let place = "'"@ + image + "' on "@ + address;
            let told = ": "@ + err;
            &&& "failed to remove image "@ + place + ": "@ + err == "failed to remove image "@ + place
                + told
            &&& "  warning: failed to remove "@ + place + ": "@ + err
                == "  warning: failed to remove "@ + place + told
            &&& text::occurs(err, "failed to remove image "@ + place + ": "@ + err)
            &&& text::occurs(err, "docker system prune failed on "@ + address + ": "@ + err)
            &&& text::occurs(address, "docker system prune failed on "@ + address + ": "@ + err)
            &&& text::occurs(address, "  warning: prune failed on "@ + address + ": "@ + err)
        }),
{
    let place = "'"@ + image + "' on "@ + address;
    let told = ": "@ + err;
    let none = Seq::<char>::empty();
    let a = "failed to remove image "@ + place + ": "@;
    let b = "docker system prune failed on "@;
    let c = "  warning: prune failed on "@;
    assert(a + err =~= "failed to remove image "@ + place + told);
    assert("  warning: failed to remove "@ + place + ": "@ + err =~= "  warning: failed to remove "@
        + place + told);
    text::parts_occur(a, err, none);
    assert(a + err + none =~= a + err);
    text::parts_occur(b + address + ": "@, err, none);
    assert(b + address + ": "@ + err + none =~= b + address + ": "@ + err);
    text::parts_occur(b, address, told);
    assert(b + address + told =~= b + address + ": "@ + err);
    text::parts_occur(c, address, told);
    assert(c + address + told =~= c + address + ": "@ + err);
}

} // verus!
