//! A test run: what is sent when, and when the run is over.
use vstd::prelude::*;

use crate::client;
use crate::config;
use crate::config::{
    AssignmentView, CommandView, HostConfig, HostView, LogLevel, PeerAssignment, PeerName, TestConfig,
};
use crate::console;
use crate::console::FieldsView;
use crate::orchestrator;
use crate::order;
use crate::outside;
use crate::peer_monitor::{EventView, PeerEvent, PeerState};
use crate::text;
use crate::ui;
use crate::ui::{BatchCommandView, BatchView, CommandBatch};

verus! {

// ---------------------------------------------------------------------------------------------
// The timeline
// ---------------------------------------------------------------------------------------------
/// A run in progress.
pub struct TestRun {
    batches: Vec<CommandBatch>,
    current: usize,
    shutdown_started: Option<u128>,
}

/// The state of a run: the batches, how many of them are sent, and the moment, in nanoseconds after
/// the start, at which the peers were told to shut down.
pub struct RunView {
    pub batches: Seq<BatchView>,
    pub current: int,
    pub shutdown_started: Option<u128>,
}

impl View for TestRun {
    type V = RunView;

    closed spec fn view(&self) -> RunView {
        RunView {
            batches: ui::batches_view(self.batches@),
            current: self.current as int,
            shutdown_started: self.shutdown_started,
        }
    }
}

impl RunView {
    /// Exactly the batches before the current one are sent, and the peers are not told to shut down
    /// before all are.
    pub open spec fn in_order(self) -> bool {
        &&& 0 <= self.current <= self.batches.len()
        &&& forall|b: int|
            0 <= b < self.batches.len() ==> ((#[trigger] self.batches[b]).sent <==> b
                < self.current)
        &&& self.shutdown_started is Some ==> self.current == self.batches.len()
    }

    /// Whether the next batch is due.
    pub open spec fn is_due(self, elapsed: u128) -> bool {
        self.current < self.batches.len() && elapsed >= self.batches[self.current].time
            * 1_000_000_000
    }
}

/// A command and the key under which it is pushed.
pub struct Push {
    pub peer: String,
    pub key: String,
    pub command: String,
}

/// What a push says.
pub struct PushView {
    pub peer: Seq<char>,
    pub key: Seq<char>,
    pub command: Seq<char>,
}

impl View for Push {
    type V = PushView;

    open spec fn view(&self) -> PushView {
        PushView { peer: self.peer@, key: self.key@, command: self.command@ }
    }
}

/// What pushes say.
pub open spec fn pushes_view(pushes: Seq<Push>) -> Seq<PushView> {
    Seq::new(pushes.len(), |i: int| pushes[i]@)
}

/// The pushes that send commands.
pub open spec fn pushes_of(commands: Seq<BatchCommandView>) -> Seq<PushView> {
    Seq::new(
        commands.len(),
        |i: int|
            PushView {
                peer: commands[i].peer,
                key: client::command_key(commands[i].peer),
                command: commands[i].command,
            },
    )
}

/// The state of a run after the current batch was sent at the given second.
pub open spec fn after_sending(run: RunView, elapsed_secs: u64) -> RunView {
    let batch = run.batches[run.current];
    RunView {
        batches: run.batches.update(
            run.current,
            BatchView { sent: true, sent_at: Some(elapsed_secs), ..batch },
        ),
        current: run.current + 1,
        shutdown_started: run.shutdown_started,
    }
}

/// What to do next in a run.
#[derive(Debug, Clone, Copy, PartialEq, Eq, Structural)]
pub enum RunStep {
    /// There is nothing to do yet.
    Wait,
    /// All commands are sent: tell the peers to shut down.
    SendShutdown,
    /// All peers have stopped: the run is over.
    Complete,
    /// The peers had their time to stop: the run is over.
    TimedOut,
}

/// What to do next at a moment, with so many seconds for the peers to stop.
pub open spec fn run_decision(
    run: RunView,
    all_stopped: bool,
    elapsed: u128,
    timeout_secs: u64,
) -> RunStep {
    if run.current < run.batches.len() {
        RunStep::Wait
    } else {
        match run.shutdown_started {
            None => RunStep::SendShutdown,
            Some(started) => if all_stopped {
                RunStep::Complete
            } else if elapsed - started > timeout_secs * 1_000_000_000 {
                RunStep::TimedOut
            } else {
                RunStep::Wait
            },
        }
    }
}

impl TestRun {
    /// A run that begins now, with batches of which none is sent.
    pub fn new(batches: Vec<CommandBatch>) -> (r: Self)
        requires
            forall|b: int| 0 <= b < batches@.len() ==> !(#[trigger] batches@[b]).sent,
        ensures
            r@.in_order(),
            r@.batches == ui::batches_view(batches@),
            r@.current == 0,
            r@.shutdown_started is None,
    {
        let run = TestRun { batches, current: 0, shutdown_started: None };
        proof {
            assert forall|b: int| 0 <= b < run@.batches.len() implies ((
            #[trigger] run@.batches[b]).sent <==> b < run@.current) by {
                assert(!batches@[b].sent);
            }
        }
        run
    }

    /// The batches.
    pub fn batches(&self) -> (r: &Vec<CommandBatch>)
        ensures
            ui::batches_view(r@) == self@.batches,
    {
        &self.batches
    }

    /// How many batches are sent.
    pub fn current(&self) -> (r: usize)
        ensures
            r == self@.current,
    {
        self.current
    }

    /// The pushes that send the next batch, if it is due.
    pub fn due_batch(&self, elapsed_nanos: u128) -> (r: Option<Vec<Push>>)
        requires
            self@.in_order(),
        ensures
            match r {
                Some(pushes) => self@.is_due(elapsed_nanos) && pushes_view(pushes@) == pushes_of(
                    self@.batches[self@.current].commands,
                ),
                None => !self@.is_due(elapsed_nanos),
            },
    {
        if self.current >= self.batches.len() {
            return None;
        }
        let batch = &self.batches[self.current];
        assert(self@.batches[self@.current] == batch@);
        assert(batch.time as int * 1_000_000_000 <= u64::MAX * 1_000_000_000);
        if elapsed_nanos < batch.time as u128 * 1_000_000_000 {
            return None;
        }
        let ghost wanted = pushes_of(batch@.commands);
        let mut pushes: Vec<Push> = Vec::new();
        let mut i: usize = 0;
        assert(pushes_view(pushes@) =~= wanted.take(0));
        while i < batch.commands.len()
            invariant
                i <= batch.commands@.len(),
                wanted == pushes_of(batch@.commands),
                pushes_view(pushes@) == wanted.take(i as int),
            decreases batch.commands@.len() - i,
        {
            let ghost before = pushes@;
            let command = &batch.commands[i];
            assert(batch@.commands[i as int] == command@);
            let push = Push {
                peer: command.peer.as_str().to_owned(),
                key: client::command_key_of(command.peer.as_str()),
                command: command.command.clone(),
            };
            let ghost entry = push@;
            pushes.push(push);
            assert(pushes_view(pushes@) =~= pushes_view(before).push(entry));
            assert(wanted.take(i + 1) =~= wanted.take(i as int).push(wanted[i as int]));
            i = i + 1;
        }
        assert(wanted.take(wanted.len() as int) =~= wanted);
        Some(pushes)
    }

    /// Takes note that the next batch was sent, at the given second.
    pub fn batch_sent(&mut self, elapsed_secs: u64)
        requires
            old(self)@.in_order(),
            old(self)@.current < old(self)@.batches.len(),
        ensures
            final(self)@.in_order(),
            final(self)@ == after_sending(old(self)@, elapsed_secs),
    {
        let ghost before = self@;
        assert(self.current < self.batches.len());
        let next: usize = self.current + 1;
        self.batches[self.current].sent = true;
        self.batches[self.current].sent_at = Some(elapsed_secs);
        self.current = next;
        proof {
            let after = after_sending(before, elapsed_secs);
            assert(self@.batches =~= after.batches);
            assert forall|b: int| 0 <= b < after.batches.len() implies ((
            #[trigger] after.batches[b]).sent <==> b < after.current) by {
                assert(before.batches[b].sent <==> b < before.current);
            }
        }
    }

    /// What to do next.
    pub fn next(
        &self,
        state: &PeerState,
        peer_names: &Vec<PeerName>,
        elapsed_nanos: u128,
        timeout_secs: u64,
    ) -> (r: RunStep)
        requires
            self@.in_order(),
        ensures
            r == run_decision(
                self@,
                orchestrator::all_have_status(
                    state@.statuses,
                    config::peer_names(peer_names@),
                    "stopped"@,
                ),
                elapsed_nanos,
                timeout_secs,
            ),
    {
        if self.current < self.batches.len() {
            return RunStep::Wait;
        }
        match self.shutdown_started {
            None => RunStep::SendShutdown,
            Some(started) => {
                if orchestrator::peers_have_status(state, peer_names, "stopped") {
                    RunStep::Complete
                } else if elapsed_nanos > started && elapsed_nanos - started > timeout_secs as u128
                    * 1_000_000_000 {
                    RunStep::TimedOut
                } else {
                    RunStep::Wait
                }
            },
        }
    }

    /// Takes note that the peers were told to shut down.
    pub fn shutdown_sent(&mut self, elapsed_nanos: u128)
        requires
            old(self)@.in_order(),
            old(self)@.current == old(self)@.batches.len(),
        ensures
            final(self)@.in_order(),
            final(self)@ == (RunView { shutdown_started: Some(elapsed_nanos), ..old(self)@ }),
    {
        self.shutdown_started = Some(elapsed_nanos);
    }
}

/// The peers are told to shut down once at most, and only when all batches are sent.
pub proof fn shutdown_comes_once_and_last(
    run: RunView,
    all_stopped: bool,
    elapsed: u128,
    timeout_secs: u64,
)
    requires
        run.in_order(),
    ensures
        run_decision(run, all_stopped, elapsed, timeout_secs) == RunStep::SendShutdown ==> {
            &&& run.shutdown_started is None
            &&& run.current == run.batches.len()
            &&& forall|b: int| 0 <= b < run.batches.len() ==> (#[trigger] run.batches[b]).sent
        },
        run.shutdown_started is Some ==> run_decision(run, all_stopped, elapsed, timeout_secs)
            != RunStep::SendShutdown,
{
}

/// A run is complete if and only if the peers were told to shut down and have all stopped.
pub proof fn runs_end_when_all_stopped(
    run: RunView,
    all_stopped: bool,
    elapsed: u128,
    timeout_secs: u64,
)
    requires
        run.in_order(),
    ensures
        run_decision(run, all_stopped, elapsed, timeout_secs) == RunStep::Complete <==> all_stopped
            && run.shutdown_started is Some,
{
}

/// After the peers were told to shut down, the run is over as soon as their time to stop is.
pub proof fn runs_end_in_time(
    run: RunView,
    all_stopped: bool,
    started: u128,
    elapsed: u128,
    timeout_secs: u64,
)
    requires
        run.in_order(),
        run.shutdown_started == Some(started),
        elapsed - started > timeout_secs * 1_000_000_000,
    ensures
        ({
            let step = run_decision(run, all_stopped, elapsed, timeout_secs);
            step == RunStep::Complete || step == RunStep::TimedOut
        }),
{
}

/// Sending a batch changes nothing but that batch: the ones before stay sent, the ones after stay
/// unsent, and no command is touched.
pub proof fn sending_touches_one_batch(run: RunView, elapsed_secs: u64, b: int)
    requires
        run.in_order(),
        run.current < run.batches.len(),
        0 <= b < run.batches.len(),
    ensures
        ({
            let after = after_sending(run, elapsed_secs);
            &&& after.in_order()
            &&& after.batches.len() == run.batches.len()
            &&& after.batches[b].commands == run.batches[b].commands
            &&& after.batches[b].time == run.batches[b].time
            &&& b != run.current ==> after.batches[b] == run.batches[b]
        }),
{
    let after = after_sending(run, elapsed_secs);
    assert forall|k: int| 0 <= k < after.batches.len() implies ((#[trigger] after.batches[k]).sent
        <==> k < after.current) by {
        assert(run.batches[k].sent <==> k < run.current);
    }
}

/// Whether a run has the batches of a list of commands, sent or not.
pub open spec fn is_run_of(
    run: RunView,
    commands: Seq<CommandView>,
    assignments: Seq<AssignmentView>,
) -> bool {
    let batches = ui::batches_of(commands, assignments, commands.len() as int);
    &&& run.in_order()
    &&& run.batches.len() == batches.len()
    &&& forall|b: int|
        0 <= b < batches.len() ==> (#[trigger] run.batches[b]).time == batches[b].time
            && run.batches[b].commands == batches[b].commands
}

/// A run that begins with the batches of commands has them, and keeps them when a batch is sent and
/// when the peers are told to shut down.
pub proof fn runs_keep_their_commands(
    run: RunView,
    commands: Seq<CommandView>,
    assignments: Seq<AssignmentView>,
    elapsed_secs: u64,
    elapsed: u128,
)
    ensures
        run.batches == ui::batches_of(commands, assignments, commands.len() as int) && run.current
            == 0 && run.shutdown_started is None ==> is_run_of(run, commands, assignments),
        is_run_of(run, commands, assignments) && run.current < run.batches.len() ==> is_run_of(
            after_sending(run, elapsed_secs),
            commands,
            assignments,
        ),
        is_run_of(run, commands, assignments) && run.current == run.batches.len() ==> is_run_of(
            RunView { shutdown_started: Some(elapsed), ..run },
            commands,
            assignments,
        ),
{
    let batches = ui::batches_of(commands, assignments, commands.len() as int);
    ui::batches_are_proper(commands, assignments, commands.len() as int);
    if is_run_of(run, commands, assignments) && run.current < run.batches.len() {
        sending_touches_one_batch(run, elapsed_secs, run.current);
        let after = after_sending(run, elapsed_secs);
        assert forall|b: int| 0 <= b < batches.len() implies (#[trigger] after.batches[b]).time
            == batches[b].time && after.batches[b].commands == batches[b].commands by {
            assert(run.batches[b].time == batches[b].time);
        }
    }
    if is_run_of(run, commands, assignments) {
        let told = RunView { shutdown_started: Some(elapsed), ..run };
        assert forall|b: int| 0 <= b < batches.len() implies (#[trigger] told.batches[b]).time
            == batches[b].time && told.batches[b].commands == batches[b].commands by {
            assert(run.batches[b].time == batches[b].time);
        }
    }
}

/// How many commands were sent with the first `n` batches.
pub open spec fn commands_sent(batches: Seq<BatchView>, n: int) -> int
    decreases n,
{
    if n <= 0 {
        0
    } else {
        commands_sent(batches, n - 1) + batches[n - 1].commands.len()
    }
}

/// The commands are sent in the order of their list, none twice and none left out. The next ones are
/// sent to their peers as soon as their second after the start is reached, and not before.
pub proof fn commands_are_sent_in_time(
    run: RunView,
    commands: Seq<CommandView>,
    assignments: Seq<AssignmentView>,
    elapsed: u128,
    j: int,
)
    requires
        is_run_of(run, commands, assignments),
    ensures
        ({
            let first = commands_sent(run.batches, run.current);
            if run.current == run.batches.len() {
                first == commands.len() && !run.is_due(elapsed)
            } else {
                let count = run.batches[run.current].commands.len();
                let pushes = pushes_of(run.batches[run.current].commands);
                &&& 0 <= first < first + count <= commands.len()
                &&& pushes.len() == count
                &&& 0 <= j < count ==> {
                    let next = commands[first + j];
                    &&& run.is_due(elapsed) <==> elapsed >= next.time * 1_000_000_000
                    &&& pushes[j].peer == next.peer
                    &&& pushes[j].key == next.peer + "_command"@
                    &&& pushes[j].command == next.command
                }
                &&& first + count < commands.len() ==> commands[first + count].time
                    != commands[first].time
            }
        }),
{
    let batches = ui::batches_of(commands, assignments, commands.len() as int);
    let n = batches.len() as int;
    ui::batches_keep_the_commands(commands, assignments, commands.len() as int);
    ui::batches_are_proper(commands, assignments, commands.len() as int);
    let row = ui::flattened(batches, n);
    assert forall|b: int| 0 <= b < n implies (#[trigger] run.batches[b]).commands
        == batches[b].commands by {}
    commands_sent_agree(run.batches, batches, run.current);
    flattened_length(batches, n);
    assert(row.len() == commands.len());
    if run.current < n {
        let c = run.current;
        let first = commands_sent(batches, c);
        let count = batches[c].commands.len() as int;
        assert(run.batches[c].time == batches[c].time);
        assert(batches[c].commands.len() > 0);
        flattened_length(batches, c);
        flattened_length(batches, c + 1);
        if 0 <= j < count {
            flattened_at(batches, n, c, j);
            assert(row[first + j] == (
                commands[first + j].time,
                ui::placed(assignments, commands[first + j]),
            ));
        }
        flattened_at(batches, n, c, 0);
        assert(row[first] == (commands[first].time, ui::placed(assignments, commands[first])));
        sent_grows(batches, c + 1, n);
        if first + count < commands.len() {
            if c + 1 < n {
                assert(batches[c + 1].commands.len() > 0);
                flattened_at(batches, n, c + 1, 0);
                assert(row[first + count] == (
                    commands[first + count].time,
                    ui::placed(assignments, commands[first + count]),
                ));
                assert(batches[c + 1].time != batches[c].time);
            }
        }
    }
}

proof fn commands_sent_agree(a: Seq<BatchView>, b: Seq<BatchView>, n: int)
    requires
        n <= a.len() == b.len(),
        forall|i: int| 0 <= i < a.len() ==> (#[trigger] a[i]).commands == b[i].commands,
    ensures
        commands_sent(a, n) == commands_sent(b, n),
    decreases n,
{
    if n > 0 {
        commands_sent_agree(a, b, n - 1);
        assert(a[n - 1].commands == b[n - 1].commands);
    }
}

proof fn sent_grows(batches: Seq<BatchView>, m: int, n: int)
    requires
        m <= n,
    ensures
        commands_sent(batches, m) <= commands_sent(batches, n),
        0 <= commands_sent(batches, n),
    decreases n,
{
    if n > 0 {
        if m < n {
            sent_grows(batches, m, n - 1);
        } else {
            sent_grows(batches, n - 1, n - 1);
        }
    }
}

proof fn flattened_length(batches: Seq<BatchView>, n: int)
    ensures
        ui::flattened(batches, n).len() == commands_sent(batches, n),
    decreases n,
{
    if n > 0 {
        flattened_length(batches, n - 1);
    }
}

proof fn flattened_at(batches: Seq<BatchView>, n: int, b: int, j: int)
    requires
        0 <= b < n <= batches.len(),
        0 <= j < batches[b].commands.len(),
    ensures
        commands_sent(batches, b) + j < ui::flattened(batches, n).len(),
        ui::flattened(batches, n)[commands_sent(batches, b) + j] == (
            batches[b].time,
            batches[b].commands[j],
        ),
    decreases n,
{
    flattened_length(batches, n - 1);
    sent_grows(batches, b, b);
    let front = ui::flattened(batches, n - 1);
    let at = commands_sent(batches, b) + j;
    if b < n - 1 {
        flattened_at(batches, n - 1, b, j);
        assert(ui::flattened(batches, n)[at] == front[at]);
    } else {
        assert(at - front.len() == j);
    }
}

/// A run waits as long as commands are to be sent, whatever the time. When all are sent the peers
/// are told to shut down, and the time to stop counts from then on: the run is complete when all
/// have stopped, is over when that time is exceeded, and waits otherwise.
pub proof fn runs_take_their_course(
    run: RunView,
    all_stopped: bool,
    elapsed: u128,
    timeout_secs: u64,
)
    requires
        run.in_order(),
    ensures
        ({
            let step = run_decision(run, all_stopped, elapsed, timeout_secs);
            &&& run.current < run.batches.len() ==> step == RunStep::Wait
            &&& step == RunStep::SendShutdown <==> run.current == run.batches.len()
                && run.shutdown_started is None
            &&& step == RunStep::Complete <==> run.shutdown_started is Some && all_stopped
            &&& step == RunStep::TimedOut <==> !all_stopped && (
            run.shutdown_started matches Some(started) && elapsed > started + timeout_secs
                * 1_000_000_000)
        }),
{
}

/// A run that waits for its peers to stop still waits with a longer time to stop, and one that is
/// over for the time it took is so at any later moment.
pub proof fn more_time_means_more_waiting(
    run: RunView,
    elapsed: u128,
    later: u128,
    timeout_secs: u64,
    longer_secs: u64,
)
    requires
        run.in_order(),
        elapsed <= later,
        timeout_secs <= longer_secs,
    ensures
        run_decision(run, false, elapsed, timeout_secs) == RunStep::Wait ==> run_decision(
            run,
            false,
            elapsed,
            longer_secs,
        ) == RunStep::Wait,
        run_decision(run, false, elapsed, timeout_secs) == RunStep::TimedOut ==> run_decision(
            run,
            false,
            later,
            timeout_secs,
        ) == RunStep::TimedOut,
{
}

/// A batch that is sent is marked as sent at that second, and the next one is up.
pub proof fn sent_batches_are_marked(run: RunView, elapsed_secs: u64)
    requires
        run.in_order(),
        run.current < run.batches.len(),
    ensures
        ({
            let after = after_sending(run, elapsed_secs);
            &&& after.current == run.current + 1
            &&& after.batches[run.current].sent
            &&& after.batches[run.current].sent_at == Some(elapsed_secs)
            &&& after.batches[run.current].delta == run.batches[run.current].delta
            &&& after.shutdown_started == run.shutdown_started
        }),
{
}

// ---------------------------------------------------------------------------------------------
// What is told
// ---------------------------------------------------------------------------------------------
/// What is logged of a command that was sent, with the seconds since the start as a text.
pub fn sent_note(seconds: &str, peer: &str, command: &str) -> (r: String)
    ensures
        r@ == "["@ + seconds@ + "s] sent to "@ + peer@ + ": "@ + command@,
{
    let mut out = "[".to_owned();
    out.push_str(seconds);
    out.push_str("s] sent to ");
    out.push_str(peer);
    out.push_str(": ");
    out.push_str(command);
    out
}

/// What is logged of a peer: whether as a warning, the name of the peer, which way it went, and the
/// message.
pub struct PeerNote {
    pub warns: bool,
    pub peer_name: String,
    pub direction: String,
    pub message: String,
}

/// What a note says.
pub struct NoteView {
    pub warns: bool,
    pub peer_name: Seq<char>,
    pub direction: Seq<char>,
    pub message: Seq<char>,
}

impl View for PeerNote {
    type V = NoteView;

    open spec fn view(&self) -> NoteView {
        NoteView {
            warns: self.warns,
            peer_name: self.peer_name@,
            direction: self.direction@,
            message: self.message@,
        }
    }
}

/// What is logged of an event in console mode: every change of a status, which comes from the peer,
/// and of the log entries the warnings and the errors, which are logged as warnings.
pub open spec fn console_note(event: EventView) -> Option<NoteView> {
    match event {
        EventView::StatusChange { peer, status } => Some(
            NoteView { warns: false, peer_name: peer, direction: "<"@, message: status },
        ),
        EventView::LogEntry { peer, level, message } => if level == "error"@ || level == "warn"@ {
            Some(
                NoteView {
                    warns: true,
                    peer_name: peer,
                    direction: ":"@,
                    message: "["@ + level + "] "@ + message,
                },
            )
        } else {
            None
        },
    }
}

/// What is logged of an event in console mode.
pub fn console_event(event: &PeerEvent) -> (r: Option<PeerNote>)
    ensures
        match r {
            Some(note) => console_note(event@) == Some(note@),
            None => console_note(event@) is None,
        },
{
    match event {
        PeerEvent::StatusChange { peer, status } => Some(
            PeerNote {
                warns: false,
                peer_name: peer.clone(),
                direction: "<".to_owned(),
                message: status.clone(),
            },
        ),
        PeerEvent::LogEntry { peer, level, message } => {
            if text::same_text(level.as_str(), "error") || text::same_text(level.as_str(), "warn") {
                let mut shown = "[".to_owned();
                shown.push_str(level.as_str());
                shown.push_str("] ");
                shown.push_str(message.as_str());
                Some(
                    PeerNote {
                        warns: true,
                        peer_name: peer.clone(),
                        direction: ":".to_owned(),
                        message: shown,
                    },
                )
            } else {
                None
            }
        },
    }
}

/// The fields with which a note of a peer is logged.
pub open spec fn note_fields(note: NoteView) -> FieldsView {
    FieldsView {
        message: note.message,
        peer: None,
        peer_name: Some(note.peer_name),
        direction: Some(note.direction),
    }
}

/// A change of a status appears as `[alice]< stopped`, and a warning or an error of a peer as
/// `[alice]: [warn] message`, whichever part of the program logs them.
pub proof fn notes_appear_with_their_direction(
    peer: Seq<char>,
    status: Seq<char>,
    level: Seq<char>,
    message: Seq<char>,
    target: Seq<char>,
)
    requires
        level == "error"@ || level == "warn"@,
    ensures
        console_note(EventView::StatusChange { peer, status }) matches Some(note)
            && console::origin_part(target, note_fields(note)) + " "@ + note.message == "["@ + peer
            + "]< "@ + status,
        console_note(EventView::LogEntry { peer, level, message }) matches Some(note)
            && console::origin_part(target, note_fields(note)) + " "@ + note.message == "["@ + peer
            + "]: ["@ + level + "] "@ + message,
{
    reveal_strlit("]");
    reveal_strlit("<");
    reveal_strlit(":");
    reveal_strlit(" ");
    reveal_strlit("]< ");
    reveal_strlit("[");
    reveal_strlit("] ");
    reveal_strlit("]: [");
    assert("["@ + peer + "]"@ + "<"@ + " "@ + status =~= "["@ + peer + "]< "@ + status);
    assert("["@ + peer + "]"@ + ":"@ + " "@ + ("["@ + level + "] "@ + message) =~= "["@ + peer
        + "]: ["@ + level + "] "@ + message);
}

/// How a run is watched.
#[derive(Debug, Clone, Copy, PartialEq, Eq, Structural)]
pub enum Watch {
    Console,
    Screen,
}

/// Something that happens while a run is watched.
pub enum LoopEvent {
    /// A peer did something.
    Told(PeerEvent),
    /// So many events of peers were missed.
    Lagged(u64),
    /// There will be no more events of peers.
    Closed,
    /// It is time for a step of the run.
    Step(RunStep),
    /// The user wants to quit.
    Quit,
    /// The program was told to end.
    Signal,
}

/// What to do about it.
pub enum LoopAction {
    /// Nothing.
    Go,
    /// Log a note, as a warning or not.
    Note(bool, String),
    /// Log a note of a peer.
    Tell(PeerNote),
    /// Log a note, then tell the peers to shut down and go on.
    TellPeers(String),
    /// Log a note, then tell the peers to shut down, wait for them and end.
    ShutDown(String),
    /// End, after a note, as a warning or not, where there is one.
    End(Option<(bool, String)>),
}

/// What an action says.
pub enum LoopView {
    Go,
    Note(bool, Seq<char>),
    Tell(NoteView),
    TellPeers(Seq<char>),
    ShutDown(Seq<char>),
    End(Option<(bool, Seq<char>)>),
}

impl View for LoopAction {
    type V = LoopView;

    open spec fn view(&self) -> LoopView {
        match self {
            LoopAction::Go => LoopView::Go,
            LoopAction::Note(warns, note) => LoopView::Note(*warns, note@),
            LoopAction::Tell(note) => LoopView::Tell(note@),
            LoopAction::TellPeers(note) => LoopView::TellPeers(note@),
            LoopAction::ShutDown(note) => LoopView::ShutDown(note@),
            LoopAction::End(Some((warns, note))) => LoopView::End(Some((*warns, note@))),
            LoopAction::End(None) => LoopView::End(None),
        }
    }
}

/// What to do about something that happens while a run is watched.
pub open spec fn loop_decision(watch: Watch, event: LoopEvent, timeout_secs: u64) -> LoopView {
    match event {
        LoopEvent::Told(told) => match console_note(told@) {
            Some(note) => LoopView::Tell(note),
            None => LoopView::Go,
        },
        LoopEvent::Lagged(n) => LoopView::Note(
            true,
            "console event receiver lagged by "@ + text::decimal(n as nat) + " messages"@,
        ),
        LoopEvent::Closed => LoopView::End(None),
        LoopEvent::Step(RunStep::Wait) => LoopView::Go,
        LoopEvent::Step(RunStep::SendShutdown) => LoopView::TellPeers(
            "all commands sent, sending shutdown to all peers"@,
        ),
        LoopEvent::Step(RunStep::Complete) => LoopView::End(
            Some((false, "all commands sent and all peers stopped -- test complete"@)),
        ),
        LoopEvent::Step(RunStep::TimedOut) => LoopView::End(
            Some(
                (
                    true,
                    match watch {
                        Watch::Console => "shutdown timeout exceeded ("@ + text::decimal(
                            timeout_secs as nat,
                        ) + "s), exiting"@,
                        Watch::Screen => "shutdown timeout exceeded, exiting"@,
                    },
                ),
            ),
        ),
        LoopEvent::Quit => LoopView::ShutDown("user requested quit"@),
        LoopEvent::Signal => LoopView::ShutDown(
            match watch {
                Watch::Console => "signal received, initiating orderly shutdown"@,
                Watch::Screen => "signal received, shutting down TUI"@,
            },
        ),
    }
}

/// What to do about something that happens while a run is watched.
pub fn watch_run(watch: Watch, event: &LoopEvent, timeout_secs: u64) -> (r: LoopAction)
    ensures
        r@ == loop_decision(watch, *event, timeout_secs),
{
    match event {
        LoopEvent::Told(told) => match console_event(told) {
            Some(note) => LoopAction::Tell(note),
            None => LoopAction::Go,
        },
        LoopEvent::Lagged(n) => {
            let mut out = "console event receiver lagged by ".to_owned();
            out.push_str(text::decimal_of(*n as u128).as_str());
            out.push_str(" messages");
            LoopAction::Note(true, out)
        },
        LoopEvent::Closed => LoopAction::End(None),
        LoopEvent::Step(RunStep::Wait) => LoopAction::Go,
        LoopEvent::Step(RunStep::SendShutdown) => LoopAction::TellPeers(
            "all commands sent, sending shutdown to all peers".to_owned(),
        ),
        LoopEvent::Step(RunStep::Complete) => LoopAction::End(
            Some((false, "all commands sent and all peers stopped -- test complete".to_owned())),
        ),
        LoopEvent::Step(RunStep::TimedOut) => {
            let note = match watch {
                Watch::Console => {
                    let mut out = "shutdown timeout exceeded (".to_owned();
                    out.push_str(text::decimal_of(timeout_secs as u128).as_str());
                    out.push_str("s), exiting");
                    out
                },
                Watch::Screen => "shutdown timeout exceeded, exiting".to_owned(),
            };
            LoopAction::End(Some((true, note)))
        },
        LoopEvent::Quit => LoopAction::ShutDown("user requested quit".to_owned()),
        LoopEvent::Signal => {
            let note = match watch {
                Watch::Console => "signal received, initiating orderly shutdown",
                Watch::Screen => "signal received, shutting down TUI",
            };
            LoopAction::ShutDown(note.to_owned())
        },
    }
}

/// What is logged after an orderly shutdown, and whether as a warning: the peers stopped, or this is
/// why not.
pub fn shutdown_note(failure: Option<&str>) -> (r: (bool, String))
    ensures
        match failure {
            None => !r.0 && r.1@ == "all peers stopped gracefully"@,
            Some(why) => r.0 && r.1@ == "shutdown timeout: "@ + why@
                + " (force-stopping in cleanup)"@,
        },
{
    match failure {
        None => (false, "all peers stopped gracefully".to_owned()),
        Some(why) => {
            let mut out = "shutdown timeout: ".to_owned();
            out.push_str(why);
            out.push_str(" (force-stopping in cleanup)");
            (true, out)
        },
    }
}

/// However a run is watched, a step goes on, tells the peers to shut down or ends as the run itself
/// decides.
pub proof fn watching_changes_no_step(watch: Watch, step: RunStep, timeout_secs: u64)
    ensures
        ({
            let action = loop_decision(watch, LoopEvent::Step(step), timeout_secs);
            &&& action is Go <==> step == RunStep::Wait
            &&& action is TellPeers <==> step == RunStep::SendShutdown
            &&& action is End <==> step == RunStep::Complete || step == RunStep::TimedOut
        }),
{
}

// ---------------------------------------------------------------------------------------------
// Preparations
// ---------------------------------------------------------------------------------------------
/// The filter for log messages: by default those that inform.
pub fn log_filter(level: Option<LogLevel>) -> (r: String)
    ensures
        r@ == match level {
            Some(level) => level.word(),
            None => "info"@,
        },
{
    match level {
        Some(level) => level.as_filter_str().to_owned(),
        None => "info".to_owned(),
    }
}

/// The name of the log file of a test that began at a moment, given as the local time of day in
/// seconds since 1970; none where the moment is out of range.
pub fn log_file_name(test: &str, local_secs: i64) -> (r: Option<String>)
    ensures
        config::option_text(r) == match outside::formatted_time(
            local_secs,
            0,
            outside::file_time_format(),
        ) {
            Some(time) => Some(log_file(test@, time)),
            None => None,
        },
{
    match outside::format_time(local_secs, 0, "%Y-%m-%d-%H-%M-%S") {
        Some(time) => Some(log_file_at(test, time.as_str())),
        None => None,
    }
}

/// The name of a log file.
pub open spec fn log_file(test: Seq<char>, time: Seq<char>) -> Seq<char> {
    test + "-"@ + time + ".log"@
}

/// The name of the log file of a test that began at the given time.
pub fn log_file_at(test: &str, time: &str) -> (r: String)
    ensures
        r@ == log_file(test@, time@),
{
    let mut out = test.to_owned();
    out.push_str("-");
    out.push_str(time);
    out.push_str(".log");
    out
}

/// The keys of the first `n` peers that may hold something from an earlier run.
pub open spec fn stale(peers: Seq<Seq<char>>, n: int) -> Seq<Seq<char>>
    decreases n,
{
    if n <= 0 {
        Seq::empty()
    } else {
        stale(peers, n - 1).push(client::command_key(peers[n - 1])).push(
            client::log_key(peers[n - 1]),
        )
    }
}

/// The names in a list of assignments.
pub open spec fn assigned_names(assignments: Seq<PeerAssignment>) -> Seq<Seq<char>> {
    Seq::new(assignments.len(), |i: int| assignments[i].peer_name@)
}

/// The keys that may hold something from an earlier run: the commands and the log of each peer.
pub fn stale_keys(assignments: &Vec<PeerAssignment>) -> (r: Vec<String>)
    ensures
        text::texts(r@) == stale(assigned_names(assignments@), assignments@.len() as int),
{
    let mut keys = text::no_texts();
    let mut i: usize = 0;
    let ghost names = assigned_names(assignments@);
    while i < assignments.len()
        invariant
            i <= assignments@.len(),
            names == assigned_names(assignments@),
            text::texts(keys@) == stale(names, i as int),
        decreases assignments@.len() - i,
    {
        let name = assignments[i].peer_name.as_str();
        text::push_text(&mut keys, client::command_key_of(name).as_str());
        text::push_text(&mut keys, client::log_key_of(name).as_str());
        i = i + 1;
    }
    keys
}

/// Whether nothing before position `i` is the same text as the one there.
pub open spec fn is_first_occurrence(list: Seq<Seq<char>>, i: int) -> bool {
    forall|k: int| 0 <= k < i ==> #[trigger] list[k] != list[i]
}

/// The positions at which a text occurs for the first time.
pub open spec fn first_occurrences(list: Seq<Seq<char>>) -> Seq<int> {
    Seq::new(list.len(), |i: int| i).filter(|i: int| is_first_occurrence(list, i))
}

/// The positions at which an address occurs for the first time: one connection is made for each.
pub fn hosts_to_connect(addresses: &Vec<String>) -> (r: Vec<usize>)
    ensures
        order::positions(r@) == first_occurrences(text::texts(addresses@)),
{
    let mut out: Vec<usize> = Vec::new();
    let mut i: usize = 0;
    let ghost list = text::texts(addresses@);
    let ghost all = Seq::new(list.len(), |i: int| i);
    let ghost first = |i: int| is_first_occurrence(list, i);
    proof {
        reveal(Seq::filter);
        assert(order::positions(out@) =~= all.take(0).filter(first));
    }
    while i < addresses.len()
        invariant
            i <= addresses@.len(),
            list == text::texts(addresses@),
            all == Seq::new(list.len(), |i: int| i),
            first == (|i: int| is_first_occurrence(list, i)),
            order::positions(out@) == all.take(i as int).filter(first),
        decreases addresses@.len() - i,
    {
        let mut k: usize = 0;
        while k < i && !text::same_text(addresses[k].as_str(), addresses[i].as_str())
            invariant
                k <= i < addresses@.len(),
                list == text::texts(addresses@),
                forall|m: int| 0 <= m < k ==> #[trigger] list[m] != list[i as int],
            decreases i - k,
        {
            k = k + 1;
        }
        let ghost before = out@;
        proof {
            reveal(Seq::filter);
            assert(all.take(i + 1).drop_last() =~= all.take(i as int));
            assert(all.take(i + 1).last() == i);
            if k < i {
                assert(list[k as int] == list[i as int]);
            }
        }
        if k == i {
            out.push(i);
            assert(order::positions(out@) =~= order::positions(before).push(i as int));
        }
        i = i + 1;
    }
    assert(all.take(all.len() as int) =~= all);
    out
}

/// Every address is connected to exactly once.
pub proof fn every_address_is_connected_once(list: Seq<Seq<char>>, i: int)
    requires
        0 <= i < list.len(),
    ensures
        exists|p: int|
            0 <= p < list.len() && #[trigger] list[p] == list[i] && first_occurrences(
                list,
            ).contains(p),
        forall|p: int, q: int|
            first_occurrences(list).contains(p) && first_occurrences(list).contains(q)
                && #[trigger] list[p] == list[i] && #[trigger] list[q] == list[i] ==> p == q,
{
    let all = Seq::new(list.len(), |i: int| i);
    let first = |i: int| is_first_occurrence(list, i);
    broadcast use vstd::seq_lib::group_filter_ensures;

    first_exists(list, i);
    let p = choose|p: int|
        0 <= p <= i && #[trigger] list[p] == list[i] && is_first_occurrence(list, p);
    assert(all[p] == p);
    assert(first(all[p]));
    all.lemma_filter_contains(first, p);
    assert(first_occurrences(list).contains(p));
    assert forall|a: int, b: int|
        first_occurrences(list).contains(a) && first_occurrences(list).contains(b)
            && #[trigger] list[a] == list[i] && #[trigger] list[b] == list[i] implies a == b by {
        occurrence_is_first(list, a);
        occurrence_is_first(list, b);
        if a < b {
            assert(list[a] != list[b]);
        } else if b < a {
            assert(list[b] != list[a]);
        }
    }
}

proof fn occurrence_is_first(list: Seq<Seq<char>>, p: int)
    requires
        first_occurrences(list).contains(p),
    ensures
        0 <= p < list.len(),
        is_first_occurrence(list, p),
{
    let all = Seq::new(list.len(), |i: int| i);
    let first = |i: int| is_first_occurrence(list, i);
    let found = first_occurrences(list);
    let k = choose|k: int| 0 <= k < found.len() && found[k] == p;
    all.lemma_filter_pred(first, k);
    assert(first(found[k]));
    all.lemma_filter_contains_rev(first, p);
}

proof fn first_exists(list: Seq<Seq<char>>, i: int)
    requires
        0 <= i < list.len(),
    ensures
        exists|p: int|
            0 <= p <= i && #[trigger] list[p] == list[i] && is_first_occurrence(list, p),
    decreases i,
{
    if !is_first_occurrence(list, i) {
        let k = choose|k: int| 0 <= k < i && #[trigger] list[k] == list[i];
        first_exists(list, k);
        let p = choose|p: int|
            0 <= p <= k && #[trigger] list[p] == list[k] && is_first_occurrence(list, p);
        assert(list[p] == list[i]);
    } else {
        assert(list[i] == list[i]);
    }
}

/// Connections are made where an address occurs for the first time: a position is among them if and
/// only if nothing before it has its address, and they are in ascending order.
pub proof fn connections_are_made_at_first_sight(list: Seq<Seq<char>>, p: int, c: int, d: int)
    ensures
        first_occurrences(list).contains(p) <==> 0 <= p < list.len() && forall|k: int|
            0 <= k < p ==> #[trigger] list[k] != list[p],
        0 <= c < d < first_occurrences(list).len() ==> first_occurrences(list)[c]
            < first_occurrences(list)[d],
{
    let all = Seq::new(list.len(), |i: int| i);
    let first = |i: int| is_first_occurrence(list, i);
    if first_occurrences(list).contains(p) {
        occurrence_is_first(list, p);
    }
    if 0 <= p < list.len() && is_first_occurrence(list, p) {
        assert(all[p] == p);
        assert(first(all[p]));
        all.lemma_filter_contains(first, p);
    }
    if 0 <= c < d < first_occurrences(list).len() {
        order::filtered_rows_keep_their_order(all, first, c, d);
    }
}

// ---------------------------------------------------------------------------------------------
// Cleaning up
// ---------------------------------------------------------------------------------------------
/// Something to do to leave the hosts clean.
pub enum CleanupTask {
    /// Print a line.
    Tell(String),
    /// Remove the container of a peer from the host at an address.
    StopPeer { peer: String, address: String },
    /// Remove an image from the host at an address.
    RemoveImage { image: String, address: String },
    /// Remove all that Docker no longer needs from the host at an address.
    Prune { address: String },
    /// Remove the container of Redis.
    StopRedis,
}

/// What a task says.
pub enum CleanupView {
    Tell(Seq<char>),
    StopPeer { peer: Seq<char>, address: Seq<char> },
    RemoveImage { image: Seq<char>, address: Seq<char> },
    Prune { address: Seq<char> },
    StopRedis,
}

impl View for CleanupTask {
    type V = CleanupView;

    open spec fn view(&self) -> CleanupView {
        match self {
            CleanupTask::Tell(line) => CleanupView::Tell(line@),
            CleanupTask::StopPeer { peer, address } => CleanupView::StopPeer {
                peer: peer@,
                address: address@,
            },
            CleanupTask::RemoveImage { image, address } => CleanupView::RemoveImage {
                image: image@,
                address: address@,
            },
            CleanupTask::Prune { address } => CleanupView::Prune { address: address@ },
            CleanupTask::StopRedis => CleanupView::StopRedis,
        }
    }
}

/// What tasks say.
pub open spec fn tasks_view(tasks: Seq<CleanupTask>) -> Seq<CleanupView> {
    Seq::new(tasks.len(), |i: int| tasks[i]@)
}

/// Adds a task.
fn add_task(tasks: &mut Vec<CleanupTask>, task: CleanupTask)
    ensures
        tasks_view(final(tasks)@) == tasks_view(old(tasks)@).push(task@),
{
    tasks.push(task);
    assert(tasks_view(tasks@) =~= tasks_view(old(tasks)@).push(task@));
}

/// The tasks that remove images from the host at an address.
pub open spec fn image_removals(images: Seq<Seq<char>>, address: Seq<char>) -> Seq<CleanupView> {
    Seq::new(images.len(), |i: int| CleanupView::RemoveImage { image: images[i], address })
}

/// Adds the tasks that remove images from the host at an address.
fn add_image_removals(tasks: &mut Vec<CleanupTask>, images: &Vec<String>, address: &str)
    ensures
        tasks_view(final(tasks)@) == tasks_view(old(tasks)@) + image_removals(
            text::texts(images@),
            address@,
        ),
{
    let ghost before = tasks_view(tasks@);
    let ghost wanted = image_removals(text::texts(images@), address@);
    let mut i: usize = 0;
    assert(before + wanted.take(0) =~= before);
    while i < images.len()
        invariant
            i <= images@.len(),
            wanted == image_removals(text::texts(images@), address@),
            tasks_view(tasks@) == before + wanted.take(i as int),
        decreases images@.len() - i,
    {
        add_task(
            tasks,
            CleanupTask::RemoveImage { image: images[i].clone(), address: address.to_owned() },
        );
        assert(wanted.take(i + 1) =~= wanted.take(i as int).push(wanted[i as int]));
        assert(tasks_view(tasks@) =~= before + wanted.take(i + 1));
        i = i + 1;
    }
    assert(wanted.take(wanted.len() as int) =~= wanted);
}

/// The tasks that stop the peers of the first `n` assignments, where their hosts are connected.
pub open spec fn peer_stops(
    assignments: Seq<AssignmentView>,
    connected: Seq<Seq<char>>,
    n: int,
) -> Seq<CleanupView>
    decreases n,
{
    if n <= 0 {
        Seq::empty()
    } else {
        let a = assignments[n - 1];
        if connected.contains(a.host.address) {
            peer_stops(assignments, connected, n - 1).push(
                CleanupView::StopPeer { peer: a.peer_name, address: a.host.address },
            )
        } else {
            peer_stops(assignments, connected, n - 1)
        }
    }
}

/// The tasks that remove images from the first `n` hosts, where they are connected.
pub open spec fn host_cleanups(
    hosts: Seq<HostView>,
    images: Seq<Seq<char>>,
    connected: Seq<Seq<char>>,
    n: int,
) -> Seq<CleanupView>
    decreases n,
{
    if n <= 0 {
        Seq::empty()
    } else if connected.contains(hosts[n - 1].address) {
        host_cleanups(hosts, images, connected, n - 1) + image_removals(
            images,
            hosts[n - 1].address,
        )
    } else {
        host_cleanups(hosts, images, connected, n - 1)
    }
}

/// What is to be done after a run: the peers are stopped, the images removed where that is wanted,
/// and Redis is stopped where it was started for the run.
pub open spec fn cleanup_tasks(
    config: TestConfig,
    assignments: Seq<AssignmentView>,
    connected: Seq<Seq<char>>,
    redis_started: bool,
) -> Seq<CleanupView> {
    peer_stops(assignments, connected, assignments.len() as int) + (if config.remove_images {
        host_cleanups(
            config::hosts_view(config.hosts@),
            text::texts(config.images@),
            connected,
            config.hosts@.len() as int,
        )
    } else {
        Seq::empty()
    }) + (if redis_started {
        seq![CleanupView::StopRedis]
    } else {
        Seq::empty()
    })
}

/// What is to be done after a run.
pub fn cleanup(
    config: &TestConfig,
    assignments: &Vec<PeerAssignment>,
    connected: &Vec<String>,
    redis_started: bool,
) -> (r: Vec<CleanupTask>)
    ensures
        tasks_view(r@) == cleanup_tasks(
            *config,
            config::assignments_view(assignments@),
            text::texts(connected@),
            redis_started,
        ),
{
    let mut tasks: Vec<CleanupTask> = Vec::new();
    let ghost views = config::assignments_view(assignments@);
    let ghost reached = text::texts(connected@);
    assert(tasks_view(tasks@) =~= Seq::empty());
    let mut i: usize = 0;
    while i < assignments.len()
        invariant
            i <= assignments@.len(),
            views == config::assignments_view(assignments@),
            reached == text::texts(connected@),
            tasks_view(tasks@) == peer_stops(views, reached, i as int),
        decreases assignments@.len() - i,
    {
        let a = &assignments[i];
        assert(views[i as int] == a@);
        if text::contains_text(connected, a.host.address.as_str()) {
            add_task(
                &mut tasks,
                CleanupTask::StopPeer {
                    peer: a.peer_name.as_str().to_owned(),
                    address: a.host.address.clone(),
                },
            );
        }
        i = i + 1;
    }
    let ghost stops = tasks_view(tasks@);
    let ghost hosts = config::hosts_view(config.hosts@);
    let ghost images = text::texts(config.images@);
    assert(stops + Seq::<CleanupView>::empty() =~= stops);
    if config.remove_images {
        let mut h: usize = 0;
        while h < config.hosts.len()
            invariant
                h <= config.hosts@.len(),
                hosts == config::hosts_view(config.hosts@),
                images == text::texts(config.images@),
                reached == text::texts(connected@),
                tasks_view(tasks@) == stops + host_cleanups(hosts, images, reached, h as int),
            decreases config.hosts@.len() - h,
        {
            let host = &config.hosts[h];
            let ghost before = host_cleanups(hosts, images, reached, h as int);
            assert(hosts[h as int] == host@);
            if text::contains_text(connected, host.address.as_str()) {
                add_image_removals(&mut tasks, &config.images, host.address.as_str());
                assert(stops + before + image_removals(images, host.address@) =~= stops + (before
                    + image_removals(images, host.address@)));
            }
            h = h + 1;
        }
    }
    if redis_started {
        add_task(&mut tasks, CleanupTask::StopRedis);
    }
    assert(tasks_view(tasks@) =~= cleanup_tasks(*config, views, reached, redis_started));
    tasks
}

/// What is told before a host is cleaned.
pub open spec fn reset_line(everything: bool, image_count: nat, host: HostView) -> Seq<char> {
    if everything {
        "pruning Docker on "@ + host.display_name() + "..."@
    } else {
        "removing "@ + text::decimal(image_count) + " image(s) on "@ + host.display_name()
            + "..."@
    }
}

/// The tasks that clean the first `n` hosts: of all that Docker no longer needs, or of the images
/// of the configuration.
pub open spec fn reset_tasks(
    everything: bool,
    hosts: Seq<HostView>,
    images: Seq<Seq<char>>,
    n: int,
) -> Seq<CleanupView>
    decreases n,
{
    if n <= 0 {
        Seq::empty()
    } else {
        let host = hosts[n - 1];
        let told = reset_tasks(everything, hosts, images, n - 1).push(
            CleanupView::Tell(reset_line(everything, images.len(), host)),
        );
        if everything {
            told.push(CleanupView::Prune { address: host.address })
        } else {
            told + image_removals(images, host.address)
        }
    }
}

/// What is told before a host is cleaned: all that Docker no longer needs, or the images of the
/// configuration.
pub fn reset_note(everything: bool, image_count: usize, host: &HostConfig) -> (r: String)
    ensures
        r@ == reset_line(everything, image_count as nat, host@),
{
    let mut out = if everything {
        "pruning Docker on ".to_owned()
    } else {
        let mut out = "removing ".to_owned();
        out.push_str(text::decimal_of(image_count as u128).as_str());
        out.push_str(" image(s) on ");
        out
    };
    out.push_str(host.display_name());
    out.push_str("...");
    out
}

/// What is to be done to clean all hosts without a run.
pub fn reset_hosts(config: &TestConfig, everything: bool) -> (r: Vec<CleanupTask>)
    ensures
        tasks_view(r@) == reset_tasks(
            everything,
            config::hosts_view(config.hosts@),
            text::texts(config.images@),
            config.hosts@.len() as int,
        ),
{
    let mut tasks: Vec<CleanupTask> = Vec::new();
    let mut h: usize = 0;
    let ghost hosts = config::hosts_view(config.hosts@);
    let ghost images = text::texts(config.images@);
    assert(tasks_view(tasks@) =~= Seq::empty());
    while h < config.hosts.len()
        invariant
            h <= config.hosts@.len(),
            hosts == config::hosts_view(config.hosts@),
            images == text::texts(config.images@),
            tasks_view(tasks@) == reset_tasks(everything, hosts, images, h as int),
        decreases config.hosts@.len() - h,
    {
        let host = &config.hosts[h];
        assert(hosts[h as int] == host@);
        add_task(
            &mut tasks,
            CleanupTask::Tell(reset_note(everything, config.images.len(), host)),
        );
        if everything {
            add_task(&mut tasks, CleanupTask::Prune { address: host.address.clone() });
        } else {
            add_image_removals(&mut tasks, &config.images, host.address.as_str());
        }
        h = h + 1;
    }
    tasks
}

/// Where all hosts are connected, every assigned peer is stopped after a run.
pub proof fn every_peer_is_stopped(
    config: TestConfig,
    assignments: Seq<AssignmentView>,
    connected: Seq<Seq<char>>,
    redis_started: bool,
    a: int,
)
    requires
        0 <= a < assignments.len(),
        forall|i: int|
            0 <= i < assignments.len() ==> connected.contains(
                (#[trigger] assignments[i]).host.address,
            ),
    ensures
        cleanup_tasks(config, assignments, connected, redis_started)[a] == (CleanupView::StopPeer {
            peer: assignments[a].peer_name,
            address: assignments[a].host.address,
        }),
{
    peers_stop_in_order(assignments, connected, assignments.len() as int);
}

proof fn peers_stop_in_order(assignments: Seq<AssignmentView>, connected: Seq<Seq<char>>, n: int)
    requires
        0 <= n <= assignments.len(),
        forall|i: int|
            0 <= i < assignments.len() ==> connected.contains(
                (#[trigger] assignments[i]).host.address,
            ),
    ensures
        peer_stops(assignments, connected, n) == Seq::new(
            n as nat,
            |i: int|
                CleanupView::StopPeer {
                    peer: assignments[i].peer_name,
                    address: assignments[i].host.address,
                },
        ),
    decreases n,
{
    if n > 0 {
        peers_stop_in_order(assignments, connected, n - 1);
        assert(connected.contains(assignments[n - 1].host.address));
    }
    assert(peer_stops(assignments, connected, n) =~= Seq::new(
        n as nat,
        |i: int|
            CleanupView::StopPeer {
                peer: assignments[i].peer_name,
                address: assignments[i].host.address,
            },
    ));
}

// ---------------------------------------------------------------------------------------------
// What cleaning up does
// ---------------------------------------------------------------------------------------------
/// Whether some host at an address is connected.
pub open spec fn is_connected_host(
    hosts: Seq<HostView>,
    connected: Seq<Seq<char>>,
    address: Seq<char>,
) -> bool {
    connected.contains(address) && exists|h: int|
        0 <= h < hosts.len() && (#[trigger] hosts[h]).address == address
}

/// After a run exactly these things are done: every peer is stopped whose host is connected; every
/// image is removed from every connected host if and only if that is wanted; and Redis is stopped if
/// and only if it was started for the run, whatever becomes of the images.
pub proof fn cleaning_up_leaves_nothing(
    config: TestConfig,
    assignments: Seq<AssignmentView>,
    connected: Seq<Seq<char>>,
    redis_started: bool,
    task: CleanupView,
)
    ensures
        cleanup_tasks(config, assignments, connected, redis_started).contains(task) <==> match task {
            CleanupView::StopPeer { peer, address } => connected.contains(address) && exists|a: int|
                0 <= a < assignments.len() && (#[trigger] assignments[a]).peer_name == peer
                    && assignments[a].host.address == address,
            CleanupView::RemoveImage { image, address } => config.remove_images && text::texts(
                config.images@,
            ).contains(image) && is_connected_host(
                config::hosts_view(config.hosts@),
                connected,
                address,
            ),
            CleanupView::StopRedis => redis_started,
            _ => false,
        },
{
    let n = assignments.len() as int;
    let hosts = config::hosts_view(config.hosts@);
    let images = text::texts(config.images@);
    let stops = peer_stops(assignments, connected, n);
    let removals = if config.remove_images {
        host_cleanups(hosts, images, connected, hosts.len() as int)
    } else {
        Seq::empty()
    };
    let redis = if redis_started {
        seq![CleanupView::StopRedis]
    } else {
        Seq::empty()
    };
    let all = cleanup_tasks(config, assignments, connected, redis_started);
    assert(all =~= stops + removals + redis);
    contained_in_sum(stops, removals, redis, task);
    peer_stops_are(assignments, connected, n, task);
    host_cleanups_are(hosts, images, connected, hosts.len() as int, task);
    if redis_started {
        assert(redis[0] == CleanupView::StopRedis);
    }
}

proof fn contained_in_sum(
    a: Seq<CleanupView>,
    b: Seq<CleanupView>,
    c: Seq<CleanupView>,
    task: CleanupView,
)
    ensures
        (a + b + c).contains(task) <==> a.contains(task) || b.contains(task) || c.contains(task),
{
    let all = a + b + c;
    if all.contains(task) {
        let k = choose|k: int| 0 <= k < all.len() && all[k] == task;
        if k < a.len() {
            assert(a[k] == task);
        } else if k < a.len() + b.len() {
            assert(b[k - a.len()] == task);
        } else {
            assert(c[k - a.len() - b.len()] == task);
        }
    }
    if a.contains(task) {
        let k = choose|k: int| 0 <= k < a.len() && a[k] == task;
        assert(all[k] == task);
    }
    if b.contains(task) {
        let k = choose|k: int| 0 <= k < b.len() && b[k] == task;
        assert(all[a.len() + k] == task);
    }
    if c.contains(task) {
        let k = choose|k: int| 0 <= k < c.len() && c[k] == task;
        assert(all[a.len() + b.len() + k] == task);
    }
}

proof fn peer_stops_are(
    assignments: Seq<AssignmentView>,
    connected: Seq<Seq<char>>,
    n: int,
    task: CleanupView,
)
    requires
        0 <= n <= assignments.len(),
    ensures
        peer_stops(assignments, connected, n).contains(task) <==> match task {
            CleanupView::StopPeer { peer, address } => connected.contains(address) && exists|a: int|
                0 <= a < n && (#[trigger] assignments[a]).peer_name == peer
                    && assignments[a].host.address == address,
            _ => false,
        },
    decreases n,
{
    if n > 0 {
        peer_stops_are(assignments, connected, n - 1, task);
        let front = peer_stops(assignments, connected, n - 1);
        let all = peer_stops(assignments, connected, n);
        let a = assignments[n - 1];
        let last = seq![CleanupView::StopPeer { peer: a.peer_name, address: a.host.address }];
        if connected.contains(a.host.address) {
            assert(all =~= front + last + Seq::empty());
            contained_in_sum(front, last, Seq::empty(), task);
            assert(last[0] == last.last());
        }
    }
}

proof fn image_removals_are(images: Seq<Seq<char>>, address: Seq<char>, task: CleanupView)
    ensures
        image_removals(images, address).contains(task) <==> (
        task matches CleanupView::RemoveImage { image, address: place } && place == address
            && images.contains(image)),
{
    let all = image_removals(images, address);
    if all.contains(task) {
        let k = choose|k: int| 0 <= k < all.len() && all[k] == task;
        assert(images.contains(images[k]));
    }
    if let CleanupView::RemoveImage { image, address: place } = task {
        if place == address && images.contains(image) {
            let k = choose|k: int| 0 <= k < images.len() && images[k] == image;
            assert(all[k] == task);
        }
    }
}

proof fn host_cleanups_are(
    hosts: Seq<HostView>,
    images: Seq<Seq<char>>,
    connected: Seq<Seq<char>>,
    n: int,
    task: CleanupView,
)
    requires
        0 <= n <= hosts.len(),
    ensures
        host_cleanups(hosts, images, connected, n).contains(task) <==> match task {
            CleanupView::RemoveImage { image, address } => images.contains(image)
                && connected.contains(address) && exists|h: int|
                0 <= h < n && (#[trigger] hosts[h]).address == address,
            _ => false,
        },
    decreases n,
{
    if n > 0 {
        host_cleanups_are(hosts, images, connected, n - 1, task);
        let front = host_cleanups(hosts, images, connected, n - 1);
        let address = hosts[n - 1].address;
        if connected.contains(address) {
            let last = image_removals(images, address);
            assert(host_cleanups(hosts, images, connected, n) =~= front + last + Seq::empty());
            contained_in_sum(front, last, Seq::empty(), task);
            image_removals_are(images, address, task);
        }
    }
}

/// Redis is stopped last, and once: everything else that is done after a run may still need it.
pub proof fn redis_is_stopped_last(
    config: TestConfig,
    assignments: Seq<AssignmentView>,
    connected: Seq<Seq<char>>,
    redis_started: bool,
    k: int,
)
    requires
        0 <= k < cleanup_tasks(config, assignments, connected, redis_started).len(),
        cleanup_tasks(config, assignments, connected, redis_started)[k] == CleanupView::StopRedis,
    ensures
        k == cleanup_tasks(config, assignments, connected, redis_started).len() - 1,
{
    let n = assignments.len() as int;
    let hosts = config::hosts_view(config.hosts@);
    let images = text::texts(config.images@);
    let stops = peer_stops(assignments, connected, n);
    let removals = if config.remove_images {
        host_cleanups(hosts, images, connected, hosts.len() as int)
    } else {
        Seq::empty()
    };
    peer_stops_are(assignments, connected, n, CleanupView::StopRedis);
    host_cleanups_are(hosts, images, connected, hosts.len() as int, CleanupView::StopRedis);
    if k < stops.len() {
        assert(stops[k] == CleanupView::StopRedis);
    } else if k < stops.len() + removals.len() {
        assert(removals[k - stops.len()] == CleanupView::StopRedis);
    }
}

/// The peers are stopped before any image is removed: an image in use cannot be.
pub proof fn peers_stop_before_images_go(
    config: TestConfig,
    assignments: Seq<AssignmentView>,
    connected: Seq<Seq<char>>,
    redis_started: bool,
    j: int,
    k: int,
)
    requires
        0 <= j < cleanup_tasks(config, assignments, connected, redis_started).len(),
        0 <= k < cleanup_tasks(config, assignments, connected, redis_started).len(),
        cleanup_tasks(config, assignments, connected, redis_started)[j] is StopPeer,
        cleanup_tasks(config, assignments, connected, redis_started)[k] is RemoveImage,
    ensures
        j < k,
{
    let n = assignments.len() as int;
    let hosts = config::hosts_view(config.hosts@);
    let images = text::texts(config.images@);
    let all = cleanup_tasks(config, assignments, connected, redis_started);
    let stops = peer_stops(assignments, connected, n);
    let removals = if config.remove_images {
        host_cleanups(hosts, images, connected, hosts.len() as int)
    } else {
        Seq::empty()
    };
    peer_stops_are(assignments, connected, n, all[k]);
    host_cleanups_are(hosts, images, connected, hosts.len() as int, all[j]);
    if k < stops.len() {
        assert(stops[k] == all[k]);
    }
    if stops.len() <= j < stops.len() + removals.len() {
        assert(removals[j - stops.len()] == all[j]);
    }
}

/// Cleaning the hosts without a run does exactly this: every host is pruned, or every image is
/// removed from every host, and nothing else is touched.
pub proof fn resetting_cleans_every_host(
    everything: bool,
    hosts: Seq<HostView>,
    images: Seq<Seq<char>>,
    task: CleanupView,
)
    requires
        !(task is Tell),
    ensures
        reset_tasks(everything, hosts, images, hosts.len() as int).contains(task) <==> match task {
            CleanupView::Prune { address } => everything && exists|h: int|
                0 <= h < hosts.len() && (#[trigger] hosts[h]).address == address,
            CleanupView::RemoveImage { image, address } => !everything && images.contains(image)
                && exists|h: int|
                0 <= h < hosts.len() && (#[trigger] hosts[h]).address == address,
            _ => false,
        },
{
    reset_tasks_are(everything, hosts, images, hosts.len() as int, task);
}

proof fn reset_tasks_are(
    everything: bool,
    hosts: Seq<HostView>,
    images: Seq<Seq<char>>,
    n: int,
    task: CleanupView,
)
    requires
        0 <= n <= hosts.len(),
        !(task is Tell),
    ensures
        reset_tasks(everything, hosts, images, n).contains(task) <==> match task {
            CleanupView::Prune { address } => everything && exists|h: int|
                0 <= h < n && (#[trigger] hosts[h]).address == address,
            CleanupView::RemoveImage { image, address } => !everything && images.contains(image)
                && exists|h: int| 0 <= h < n && (#[trigger] hosts[h]).address == address,
            _ => false,
        },
    decreases n,
{
    if n > 0 {
        reset_tasks_are(everything, hosts, images, n - 1, task);
        let host = hosts[n - 1];
        let front = reset_tasks(everything, hosts, images, n - 1);
        let told = seq![CleanupView::Tell(reset_line(everything, images.len(), host))];
        let work = if everything {
            seq![CleanupView::Prune { address: host.address }]
        } else {
            image_removals(images, host.address)
        };
        assert(reset_tasks(everything, hosts, images, n) =~= front + told + work);
        contained_in_sum(front, told, work, task);
        if everything {
            assert(work[0] == CleanupView::Prune { address: host.address });
        } else {
            image_removals_are(images, host.address, task);
        }
    }
}

/// Exactly the commands and the log of every peer are cleared before a run.
pub proof fn all_stale_keys_are_cleared(peers: Seq<Seq<char>>, n: int, key: Seq<char>)
    requires
        0 <= n <= peers.len(),
    ensures
        stale(peers, n).len() == 2 * n,
        stale(peers, n).contains(key) <==> exists|i: int|
            0 <= i < n && (key == #[trigger] peers[i] + "_command"@ || key == peers[i] + "_log"@),
    decreases n,
{
    if n > 0 {
        all_stale_keys_are_cleared(peers, n - 1, key);
        let front = stale(peers, n - 1);
        let all = stale(peers, n);
        let m = front.len() as int;
        assert(all[m] == peers[n - 1] + "_command"@);
        assert(all[m + 1] == peers[n - 1] + "_log"@);
        if all.contains(key) {
            let k = choose|k: int| 0 <= k < all.len() && all[k] == key;
            if k < m {
                assert(front[k] == key);
            }
        }
        if front.contains(key) {
            let k = choose|k: int| 0 <= k < front.len() && front[k] == key;
            assert(all[k] == key);
        }
    }
}

/// However a run is watched, the user who quits and a signal shut it down in order, and nothing that
/// a peer does ends it.
pub proof fn only_quitting_and_signals_shut_down(watch: Watch, event: LoopEvent, timeout_secs: u64)
    ensures
        loop_decision(watch, event, timeout_secs) is ShutDown <==> event is Quit || event is Signal,
        loop_decision(watch, event, timeout_secs) is End <==> event is Closed || (
        event matches LoopEvent::Step(step) && (step == RunStep::Complete || step
            == RunStep::TimedOut)),
        loop_decision(watch, event, timeout_secs) is TellPeers <==> event == LoopEvent::Step(
            RunStep::SendShutdown,
        ),
        event is Lagged ==> (loop_decision(watch, event, timeout_secs) matches LoopView::Note(
            warns,
            _,
        ) && warns),
{
}

/// Every change of a status is told, and of the log entries exactly the warnings and the errors, as
/// warnings and with the whole message.
pub proof fn warnings_and_statuses_are_told(event: EventView)
    ensures
        match event {
            EventView::StatusChange { peer, status } => console_note(event) matches Some(note)
                && !note.warns && note.peer_name == peer && note.message == status,
            EventView::LogEntry { peer, level, message } => if level == "error"@ || level
                == "warn"@ {
                console_note(event) matches Some(note) && note.warns && note.peer_name == peer
                    && note.message == "["@ + level + "] "@ + message
            } else {
                console_note(event) is None
            },
        },
{
}

} // verus!
