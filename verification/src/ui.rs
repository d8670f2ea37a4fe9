//! The timeline of commands, and what the terminal shows of it and of the peers.
use vstd::prelude::*;
use vstd::utf8::*;

use crate::config;
use crate::config::{AssignmentView, CommandView, PeerAssignment, PeerName, TestCommand};
use crate::outside;
use crate::text;
use crate::text_map::TextMap;

verus! {

// ---------------------------------------------------------------------------------------------
// Batches
// ---------------------------------------------------------------------------------------------
/// The commands that are sent at the same second.
pub struct CommandBatch {
    pub time: u64,
    /// How many seconds after the batch before.
    pub delta: u64,
    pub commands: Vec<BatchCommand>,
    pub sent: bool,
    /// How many seconds after the start of the test the batch was sent.
    pub sent_at: Option<u64>,
}

/// A command of a batch.
pub struct BatchCommand {
    pub peer: PeerName,
    pub host: String,
    pub command: String,
}

/// What a command of a batch says.
pub struct BatchCommandView {
    pub peer: Seq<char>,
    pub host: Seq<char>,
    pub command: Seq<char>,
}

impl View for BatchCommand {
    type V = BatchCommandView;

    open spec fn view(&self) -> BatchCommandView {
        BatchCommandView { peer: self.peer@, host: self.host@, command: self.command@ }
    }
}

/// What a batch says.
pub struct BatchView {
    pub time: u64,
    pub delta: u64,
    pub commands: Seq<BatchCommandView>,
    pub sent: bool,
    pub sent_at: Option<u64>,
}

/// What the commands of a batch say.
pub open spec fn batch_commands(list: Seq<BatchCommand>) -> Seq<BatchCommandView> {
    Seq::new(list.len(), |i: int| list[i]@)
}

impl View for CommandBatch {
    type V = BatchView;

    open spec fn view(&self) -> BatchView {
        BatchView {
            time: self.time,
            delta: self.delta,
            commands: batch_commands(self.commands@),
            sent: self.sent,
            sent_at: self.sent_at,
        }
    }
}

/// What a list of batches says.
pub open spec fn batches_view(list: Seq<CommandBatch>) -> Seq<BatchView> {
    Seq::new(list.len(), |i: int| list[i]@)
}

/// The address of the host of a peer by the first `n` assignments, of which the last one for the
/// peer counts; a question mark where there is none.
pub open spec fn host_of_peer(assignments: Seq<AssignmentView>, peer: Seq<char>, n: int) -> Seq<char>
    decreases n,
{
    if n <= 0 {
        "?"@
    } else if assignments[n - 1].peer_name == peer {
        assignments[n - 1].host.address
    } else {
        host_of_peer(assignments, peer, n - 1)
    }
}

/// A command as it stands in a batch.
pub open spec fn placed(assignments: Seq<AssignmentView>, command: CommandView) -> BatchCommandView {
    BatchCommandView {
        peer: command.peer,
        host: host_of_peer(assignments, command.peer, assignments.len() as int),
        command: command.command,
    }
}

/// The difference of two times, zero where the second is later.
pub open spec fn time_since(time: u64, before: u64) -> u64 {
    if time >= before {
        (time - before) as u64
    } else {
        0
    }
}

/// Batches with one more command: it joins the last batch where that has its time, and otherwise
/// begins a new one.
pub open spec fn with_command(
    batches: Seq<BatchView>,
    time: u64,
    command: BatchCommandView,
) -> Seq<BatchView> {
    if batches.len() > 0 && batches.last().time == time {
        let last = batches.last();
        batches.drop_last().push(
            BatchView {
                time: last.time,
                delta: last.delta,
                commands: last.commands.push(command),
                sent: last.sent,
                sent_at: last.sent_at,
            },
        )
    } else {
        let before = if batches.len() > 0 {
            batches.last().time
        } else {
            0
        };
        batches.push(
            BatchView {
                time,
                delta: time_since(time, before),
                commands: seq![command],
                sent: false,
                sent_at: None,
            },
        )
    }
}

/// The batches of the first `n` commands.
pub open spec fn batches_of(
    commands: Seq<CommandView>,
    assignments: Seq<AssignmentView>,
    n: int,
) -> Seq<BatchView>
    decreases n,
{
    if n <= 0 {
        Seq::empty()
    } else {
        with_command(
            batches_of(commands, assignments, n - 1),
            commands[n - 1].time,
            placed(assignments, commands[n - 1]),
        )
    }
}

/// The address of the host of a peer.
fn find_host(assignments: &Vec<PeerAssignment>, peer: &str) -> (r: String)
    ensures
        r@ == host_of_peer(
            config::assignments_view(assignments@),
            peer@,
            assignments@.len() as int,
        ),
{
    let mut n: usize = assignments.len();
    let ghost views = config::assignments_view(assignments@);
    while n > 0
        invariant
            n <= assignments@.len(),
            views == config::assignments_view(assignments@),
            host_of_peer(views, peer@, assignments@.len() as int) == host_of_peer(
                views,
                peer@,
                n as int,
            ),
        decreases n,
    {
        assert(views[n - 1] == assignments@[n - 1]@);
        if text::same_text(assignments[n - 1].peer_name.as_str(), peer) {
            return assignments[n - 1].host.address.clone();
        }
        n = n - 1;
    }
    "?".to_owned()
}

/// Groups commands that follow each other and have the same time into batches.
pub fn build_batches(commands: &Vec<TestCommand>, assignments: &Vec<PeerAssignment>) -> (r: Vec<
    CommandBatch,
>)
    ensures
        batches_view(r@) == batches_of(
            config::commands_view(commands@),
            config::assignments_view(assignments@),
            commands@.len() as int,
        ),
{
    let mut batches: Vec<CommandBatch> = Vec::new();
    let mut i: usize = 0;
    let ghost given = config::commands_view(commands@);
    let ghost places = config::assignments_view(assignments@);
    assert(batches_view(batches@) =~= Seq::empty());
    while i < commands.len()
        invariant
            i <= commands@.len(),
            given == config::commands_view(commands@),
            places == config::assignments_view(assignments@),
            batches_view(batches@) == batches_of(given, places, i as int),
        decreases commands@.len() - i,
    {
        let cmd = &commands[i];
        let entry = BatchCommand {
            peer: cmd.peer.clone(),
            host: find_host(assignments, cmd.peer.as_str()),
            command: cmd.command.clone(),
        };
        let ghost placed_entry = entry@;
        assert(given[i as int] == cmd@);
        assert(placed_entry == placed(places, given[i as int]));
        let ghost before = batches@;
        let ghost old_views = batches_view(before);
        let last = batches.len();
        if last > 0 && batches[last - 1].time == cmd.time {
            let ghost listed = before[last - 1].commands@;
            batches[last - 1].commands.push(entry);
            proof {
                assert(batch_commands(batches@[last - 1].commands@) =~= batch_commands(
                    listed,
                ).push(placed_entry));
                assert(batches_view(batches@) =~= with_command(
                    old_views,
                    cmd.time,
                    placed_entry,
                ));
            }
        } else {
            let earlier: u64 = if last > 0 {
                batches[last - 1].time
            } else {
                0
            };
            let delta: u64 = if cmd.time >= earlier {
                cmd.time - earlier
            } else {
                0
            };
            let mut list: Vec<BatchCommand> = Vec::new();
            list.push(entry);
            proof {
                assert(batch_commands(list@) =~= seq![placed_entry]);
            }
            batches.push(
                CommandBatch { time: cmd.time, delta, commands: list, sent: false, sent_at: None },
            );
            proof {
                assert(batches_view(batches@) =~= with_command(
                    old_views,
                    cmd.time,
                    placed_entry,
                ));
            }
        }
        i = i + 1;
    }
    batches
}

/// The commands of the first `n` batches, one after the other, each with the time of its batch.
pub open spec fn flattened(batches: Seq<BatchView>, n: int) -> Seq<(u64, BatchCommandView)>
    decreases n,
{
    if n <= 0 {
        Seq::empty()
    } else {
        let batch = batches[n - 1];
        flattened(batches, n - 1) + Seq::new(
            batch.commands.len(),
            |i: int| (batch.time, batch.commands[i]),
        )
    }
}

proof fn flattened_agrees(a: Seq<BatchView>, b: Seq<BatchView>, n: int)
    requires
        n <= a.len(),
        n <= b.len(),
        forall|i: int| 0 <= i < n ==> #[trigger] a[i] == b[i],
    ensures
        flattened(a, n) == flattened(b, n),
    decreases n,
{
    if n > 0 {
        flattened_agrees(a, b, n - 1);
    }
}

/// Batching loses no command, adds none and changes neither their order nor their times.
pub proof fn batches_keep_the_commands(
    commands: Seq<CommandView>,
    assignments: Seq<AssignmentView>,
    n: int,
)
    requires
        0 <= n <= commands.len(),
    ensures
        ({
            let batches = batches_of(commands, assignments, n);
            flattened(batches, batches.len() as int) == Seq::new(
                n as nat,
                |i: int| (commands[i].time, placed(assignments, commands[i])),
            )
        }),
    decreases n,
{
    let batches = batches_of(commands, assignments, n);
    let wanted = Seq::new(
        n as nat,
        |i: int| (commands[i].time, placed(assignments, commands[i])),
    );
    if n > 0 {
        batches_keep_the_commands(commands, assignments, n - 1);
        let front = batches_of(commands, assignments, n - 1);
        let wanted_front = Seq::new(
            (n - 1) as nat,
            |i: int| (commands[i].time, placed(assignments, commands[i])),
        );
        let entry = (commands[n - 1].time, placed(assignments, commands[n - 1]));
        assert(wanted =~= wanted_front.push(entry));
        if front.len() > 0 && front.last().time == commands[n - 1].time {
            flattened_agrees(front, batches, front.len() - 1);
            assert(flattened(batches, batches.len() as int) =~= flattened(
                front,
                front.len() as int,
            ).push(entry));
        } else {
            flattened_agrees(front, batches, front.len() as int);
            assert(flattened(batches, batches.len() as int) =~= flattened(
                front,
                front.len() as int,
            ).push(entry));
        }
    } else {
        assert(wanted =~= Seq::empty());
    }
}

/// Batches that follow each other have different times, none is empty, and none is sent yet.
pub proof fn batches_are_proper(
    commands: Seq<CommandView>,
    assignments: Seq<AssignmentView>,
    n: int,
)
    ensures
        ({
            let batches = batches_of(commands, assignments, n);
            &&& forall|i: int|
                0 <= i < batches.len() ==> (#[trigger] batches[i]).commands.len() > 0
                    && !batches[i].sent && batches[i].sent_at is None
            &&& forall|i: int|
                0 < i < batches.len() ==> (#[trigger] batches[i]).time != batches[i - 1].time
        }),
    decreases n,
{
    if n > 0 {
        batches_are_proper(commands, assignments, n - 1);
        let front = batches_of(commands, assignments, n - 1);
        let batches = batches_of(commands, assignments, n);
        assert forall|i: int| 0 < i < batches.len() implies (#[trigger] batches[i]).time
            != batches[i - 1].time by {
            if i < front.len() {
                assert(batches[i].time == front[i].time);
                assert(batches[i - 1].time == front[i - 1].time);
            } else {
                assert(batches[i - 1] == front[i - 1]);
            }
        }
    }
}

/// The sum of the first `n` deltas.
pub open spec fn delta_sum(batches: Seq<BatchView>, n: int) -> int
    decreases n,
{
    if n <= 0 {
        0
    } else {
        delta_sum(batches, n - 1) + batches[n - 1].delta
    }
}

proof fn delta_sum_agrees(a: Seq<BatchView>, b: Seq<BatchView>, n: int)
    requires
        n <= a.len(),
        n <= b.len(),
        forall|i: int| 0 <= i < n ==> (#[trigger] a[i]).delta == b[i].delta,
    ensures
        delta_sum(a, n) == delta_sum(b, n),
    decreases n,
{
    if n > 0 {
        delta_sum_agrees(a, b, n - 1);
        assert(a[n - 1].delta == b[n - 1].delta);
    }
}

/// Where the commands are given in the order of their times, the deltas up to a batch add up to its
/// time.
pub proof fn deltas_add_up(
    commands: Seq<CommandView>,
    assignments: Seq<AssignmentView>,
    n: int,
    k: int,
)
    requires
        0 <= n <= commands.len(),
        forall|i: int, j: int|
            0 <= i <= j < commands.len() ==> (#[trigger] commands[i]).time <= (
            #[trigger] commands[j]).time,
        0 <= k < batches_of(commands, assignments, n).len(),
    ensures
        delta_sum(batches_of(commands, assignments, n), k + 1) == batches_of(
            commands,
            assignments,
            n,
        )[k].time,
        n > 0 ==> batches_of(commands, assignments, n).last().time == commands[n - 1].time,
    decreases n,
{
    if n > 0 {
        let front = batches_of(commands, assignments, n - 1);
        let batches = batches_of(commands, assignments, n);
        if front.len() > 0 {
            deltas_add_up(commands, assignments, n - 1, front.len() - 1);
        }
        if n > 1 && front.len() > 0 {
            assert(commands[n - 2].time <= commands[n - 1].time);
        }
        if k < front.len() {
            deltas_add_up(commands, assignments, n - 1, k);
            delta_sum_agrees(front, batches, k + 1);
        } else {
            delta_sum_agrees(front, batches, front.len() as int);
        }
    }
}

// ---------------------------------------------------------------------------------------------
// Times and sizes
// ---------------------------------------------------------------------------------------------
/// A number with at least two digits.
pub open spec fn two_digit_text(n: nat) -> Seq<char> {
    text::padded_left(text::decimal(n), 2, '0')
}

/// Seconds as hours, minutes and seconds.
pub open spec fn clock(secs: nat) -> Seq<char> {
    two_digit_text(secs / 3600) + ":"@ + two_digit_text(secs % 3600 / 60) + ":"@ + two_digit_text(
        secs % 60,
    )
}

/// Seconds as hours, minutes and seconds, each with at least two digits.
pub fn format_elapsed(secs: u64) -> (r: String)
    ensures
        r@ == clock(secs as nat),
{
    let mut out = text::two_digits(secs / 3600);
    out.push_str(":");
    out.push_str(text::two_digits((secs % 3600) / 60).as_str());
    out.push_str(":");
    out.push_str(text::two_digits(secs % 60).as_str());
    out
}

/// Whether the height of the pane for so many peers is a number that a pane can have.
pub open spec fn pane_fits(peer_count: int) -> bool {
    peer_count < usize::MAX && (peer_count + 1) / 2 % 65536 <= 65533
}

/// The height of the pane for the peers: two peers on a line, and the border.
pub fn peer_pane_height(peer_count: usize) -> (r: u16)
    requires
        pane_fits(peer_count as int),
    ensures
        r == (peer_count + 1) / 2 % 65536 + 2,
{
    let rows = (peer_count + 1) / 2;
    (rows % 65536) as u16 + 2
}

/// The heading of the screen: the name of the test, and the time, which ends at the right border.
pub fn render_header(width: u16, name: &str, elapsed_secs: u64) -> (r: (String, String))
    requires
        encode_utf8(name@).len() + 13 <= width,
    ensures
        r.0@ == " The Mule: "@ + name@,
        r.1@ == text::padded_left(
            clock(elapsed_secs as nat),
            width - encode_utf8(name@).len() - 13,
            ' ',
        ),
{
    let mut title = " The Mule: ".to_owned();
    title.push_str(name);
    let room = width as usize - name.as_bytes().len() - 13;
    (title, text::pad_left(format_elapsed(elapsed_secs).as_str(), room, ' '))
}

// ---------------------------------------------------------------------------------------------
// The peers
// ---------------------------------------------------------------------------------------------
/// A colour of the terminal.
#[derive(Debug, Clone, Copy, PartialEq, Eq, Structural)]
pub enum Color {
    Green,
    Yellow,
    Red,
    White,
    DarkGray,
}

/// The colour of a status.
pub open spec fn color_of(status: Seq<char>) -> Color {
    if status == "connected"@ {
        Color::Green
    } else if status == "connecting"@ || status == "disconnecting"@ {
        Color::Yellow
    } else if status == "disconnected"@ || status == "stopped"@ {
        Color::Red
    } else if status == "started"@ {
        Color::White
    } else {
        Color::DarkGray
    }
}

/// The colour of a status.
pub fn status_color(status: &str) -> (r: Color)
    ensures
        r == color_of(status@),
{
    if text::same_text(status, "connected") {
        Color::Green
    } else if text::same_text(status, "connecting") || text::same_text(status, "disconnecting") {
        Color::Yellow
    } else if text::same_text(status, "disconnected") || text::same_text(status, "stopped") {
        Color::Red
    } else if text::same_text(status, "started") {
        Color::White
    } else {
        Color::DarkGray
    }
}

/// A piece of a line, in a colour or without one.
pub struct ColoredText {
    pub content: String,
    pub color: Option<Color>,
}

/// What a piece of a line says.
pub struct ColoredView {
    pub content: Seq<char>,
    pub color: Option<Color>,
}

impl View for ColoredText {
    type V = ColoredView;

    open spec fn view(&self) -> ColoredView {
        ColoredView { content: self.content@, color: self.color }
    }
}

/// What a line says.
pub open spec fn line_view(line: Seq<ColoredText>) -> Seq<ColoredView> {
    Seq::new(line.len(), |i: int| line[i]@)
}

/// What lines say.
pub open spec fn lines_view(lines: Seq<Vec<ColoredText>>) -> Seq<Seq<ColoredView>> {
    Seq::new(lines.len(), |i: int| line_view(lines[i]@))
}

/// The status of a peer as it is shown.
pub open spec fn shown_status(statuses: Map<Seq<char>, Seq<char>>, peer: Seq<char>) -> Seq<char> {
    if statuses.contains_key(peer) {
        statuses[peer]
    } else {
        "pending"@
    }
}

/// A peer as it is shown: its name, its host and its status, in the colour of the status.
pub open spec fn peer_entry(
    statuses: Map<Seq<char>, Seq<char>>,
    assignment: AssignmentView,
) -> ColoredView {
    let status = shown_status(statuses, assignment.peer_name);
    ColoredView {
        content: " "@ + text::padded_right(assignment.peer_name, 10, ' ') + " "@
            + text::padded_right(assignment.host.address, 16, ' ') + " "@ + status,
        color: Some(color_of(status)),
    }
}

/// The line with peers `2 * k` and `2 * k + 1`, of which the second begins in the middle of the
/// pane where the first leaves room for that.
pub open spec fn peer_line(
    statuses: Map<Seq<char>, Seq<char>>,
    assignments: Seq<AssignmentView>,
    half_width: int,
    k: int,
) -> Seq<ColoredView> {
    let first = peer_entry(statuses, assignments[2 * k]);
    if 2 * k + 1 < assignments.len() {
        seq![
            first,
            ColoredView {
                content: text::repeated(' ', half_width - outside::columns(first.content)),
                color: None,
            },
            peer_entry(statuses, assignments[2 * k + 1]),
        ]
    } else {
        seq![first]
    }
}

/// A peer as it is shown.
fn show_peer(statuses: &TextMap<String>, assignment: &PeerAssignment) -> (r: ColoredText)
    ensures
        r@ == peer_entry(config::text_values(statuses@), assignment@),
{
    let status = match statuses.get(assignment.peer_name.as_str()) {
        Some(status) => status.as_str(),
        None => "pending",
    };
    let mut content = " ".to_owned();
    content.push_str(text::pad_right(assignment.peer_name.as_str(), 10).as_str());
    content.push_str(" ");
    content.push_str(text::pad_right(assignment.host.address.as_str(), 16).as_str());
    content.push_str(" ");
    content.push_str(status);
    ColoredText { content, color: Some(status_color(status)) }
}

/// The spaces between a peer that takes `columns` columns and the next one on its line.
pub fn gap_after(columns: usize, half_width: usize) -> (r: ColoredText)
    ensures
        r@ == (ColoredView {
            content: text::repeated(' ', half_width - columns),
            color: None,
        }),
{
    let room: usize = if columns < half_width {
        half_width - columns
    } else {
        0
    };
    let content = text::repeat(' ', room);
    assert(content@ =~= text::repeated(' ', half_width - columns));
    ColoredText { content, color: None }
}

/// Whether it is known of the first `n` peers how many columns those take that stand first on their
/// lines, where they are shown in printable ASCII.
pub open spec fn columns_are_known(
    statuses: Map<Seq<char>, Seq<char>>,
    assignments: Seq<AssignmentView>,
    n: int,
) -> bool {
    forall|i: int|
        0 <= i < n && i % 2 == 0 && outside::is_printable_ascii(
            (#[trigger] peer_entry(statuses, assignments[i])).content,
        ) ==> outside::columns(peer_entry(statuses, assignments[i]).content) == peer_entry(
            statuses,
            assignments[i],
        ).content.len()
}

/// The lines of the pane for the peers, two peers on each.
pub fn render_peers(
    inner_width: u16,
    statuses: &TextMap<String>,
    assignments: &Vec<PeerAssignment>,
) -> (r: Vec<Vec<ColoredText>>)
    ensures
        lines_view(r@) == Seq::new(
            (assignments@.len() + 1) / 2,
            |k: int|
                peer_line(
                    config::text_values(statuses@),
                    config::assignments_view(assignments@),
                    inner_width as int / 2,
                    k,
                ),
        ),
        columns_are_known(
            config::text_values(statuses@),
            config::assignments_view(assignments@),
            assignments@.len() as int,
        ),
{
    let half_width = inner_width as usize / 2;
    let mut lines: Vec<Vec<ColoredText>> = Vec::new();
    let mut i: usize = 0;
    let ghost known = config::text_values(statuses@);
    let ghost views = config::assignments_view(assignments@);
    let ghost wanted = Seq::new(
        (assignments@.len() + 1) / 2,
        |k: int| peer_line(known, views, inner_width as int / 2, k),
    );
    assert(lines_view(lines@) =~= wanted.take(0));
    while i < assignments.len()
        invariant
            i <= assignments@.len(),
            i % 2 == 0 || i == assignments@.len(),
            half_width == inner_width as int / 2,
            known == config::text_values(statuses@),
            views == config::assignments_view(assignments@),
            wanted == Seq::new(
                (assignments@.len() + 1) / 2,
                |k: int| peer_line(known, views, inner_width as int / 2, k),
            ),
            lines_view(lines@) == wanted.take((i + 1) / 2),
            columns_are_known(known, views, i as int),
        decreases assignments@.len() - i,
    {
        let ghost k = i as int / 2;
        let ghost before = lines@;
        let mut line: Vec<ColoredText> = Vec::new();
        let first = show_peer(statuses, &assignments[i]);
        assert(views[2 * k] == assignments@[i as int]@);
        let columns = outside::columns_of(first.content.as_str());
        let ghost first_view = first@;
        line.push(first);
        if i + 1 < assignments.len() {
            let gap = gap_after(columns, half_width);
            let second = show_peer(statuses, &assignments[i + 1]);
            assert(views[2 * k + 1] == assignments@[i + 1]@);
            line.push(gap);
            line.push(second);
            i = i + 2;
        } else {
            i = i + 1;
        }
        assert(line_view(line@) =~= peer_line(known, views, inner_width as int / 2, k));
        let ghost entry = line_view(line@);
        lines.push(line);
        assert(lines_view(lines@) =~= lines_view(before).push(entry));
        assert(wanted.take(k + 1) =~= wanted.take(k).push(wanted[k]));
        assert((i + 1) / 2 == k + 1);
    }
    assert(wanted.take(wanted.len() as int) =~= wanted);
    lines
}

// ---------------------------------------------------------------------------------------------
// The commands
// ---------------------------------------------------------------------------------------------
/// How a row of the timeline is shown.
#[derive(Debug, Clone, Copy, PartialEq, Eq, Structural)]
pub enum RowStyle {
    /// The batch that is sent next.
    Focused,
    /// A batch that was sent.
    Sent,
    /// A batch that is sent later.
    Waiting,
}

/// A row of the timeline.
pub struct CommandRow {
    pub content: String,
    pub style: RowStyle,
}

/// What a row of the timeline says.
pub struct RowView {
    pub content: Seq<char>,
    pub style: RowStyle,
}

impl View for CommandRow {
    type V = RowView;

    open spec fn view(&self) -> RowView {
        RowView { content: self.content@, style: self.style }
    }
}

/// What rows say.
pub open spec fn rows_view(rows: Seq<CommandRow>) -> Seq<RowView> {
    Seq::new(rows.len(), |i: int| rows[i]@)
}

/// Whether a command can be shown: one of more than 20 bytes is cut after 18 of them, which must
/// not fall within a character.
pub open spec fn can_be_shown(command: Seq<char>) -> bool {
    encode_utf8(command).len() > 20 ==> is_char_boundary(encode_utf8(command), 18)
}

/// A command as it is shown.
pub open spec fn shown_command(command: Seq<char>) -> Seq<char> {
    if encode_utf8(command).len() > 20 {
        decode_utf8(encode_utf8(command).take(18)) + ".."@
    } else {
        command
    }
}

/// The style of the rows of batch `b`.
pub open spec fn row_style(batch: BatchView, b: int, current: int) -> RowStyle {
    if b == current && !batch.sent {
        RowStyle::Focused
    } else if batch.sent {
        RowStyle::Sent
    } else {
        RowStyle::Waiting
    }
}

/// The row of command `c` of batch `b`: a marker, when it was sent, the delta of the batch on its
/// first row, the peer, its host, the command and what becomes of it.
pub open spec fn command_row(
    batch: BatchView,
    b: int,
    c: int,
    current: int,
    elapsed: u64,
) -> RowView {
    let style = row_style(batch, b, current);
    let marker = if style == RowStyle::Focused {
        ">"@
    } else {
        " "@
    };
    let sent_time = if batch.sent {
        match batch.sent_at {
            Some(secs) => clock(secs as nat),
            None => clock(batch.time as nat),
        }
    } else {
        "        "@
    };
    let delta = if c == 0 {
        "+"@ + text::decimal(batch.delta as nat) + "s"@
    } else {
        "    "@
    };
    let status = match style {
        RowStyle::Sent => "sent"@,
        RowStyle::Focused => text::decimal(time_since(batch.time, elapsed) as nat) + "s"@,
        RowStyle::Waiting => Seq::empty(),
    };
    let command = batch.commands[c];
    RowView {
        content: " "@ + marker + " "@ + sent_time + "  "@ + text::padded_right(delta, 6, ' ')
            + " "@ + text::padded_right(command.peer, 10, ' ') + " "@ + text::padded_right(
            command.host,
            16,
            ' ',
        ) + " "@ + text::padded_right(shown_command(command.command), 20, ' ') + " "@ + status,
        style,
    }
}

/// The rows of batch `b`.
pub open spec fn batch_rows(batch: BatchView, b: int, current: int, elapsed: u64) -> Seq<RowView> {
    Seq::new(batch.commands.len(), |c: int| command_row(batch, b, c, current, elapsed))
}

/// The rows of the first `n` batches.
pub open spec fn timeline(batches: Seq<BatchView>, current: int, elapsed: u64, n: int) -> Seq<
    RowView,
>
    decreases n,
{
    if n <= 0 {
        Seq::empty()
    } else {
        timeline(batches, current, elapsed, n - 1) + batch_rows(
            batches[n - 1],
            n - 1,
            current,
            elapsed,
        )
    }
}

/// The number of rows of the first `n` batches.
pub open spec fn row_count(batches: Seq<BatchView>, n: int) -> int
    decreases n,
{
    if n <= 0 {
        0
    } else {
        row_count(batches, n - 1) + batches[n - 1].commands.len()
    }
}

/// How far the timeline is scrolled: so that the batch that is sent next begins in the middle of the
/// pane, as far as there are rows above it.
pub open spec fn scroll_offset(batches: Seq<BatchView>, current: int, height: int) -> int {
    if 0 <= current < batches.len() && !batches[current].sent && batches[current].commands.len()
        > 0 && row_count(batches, current) > height / 2 {
        (row_count(batches, current) - height / 2) % 65536
    } else {
        0
    }
}

/// A command as it is shown.
fn cut_command(command: &str) -> (r: String)
    requires
        can_be_shown(command@),
    ensures
        r@ == shown_command(command@),
{
    if command.as_bytes().len() > 20 {
        let (head, _) = command.split_at(18);
        let mut out = head.to_owned();
        proof {
            encode_utf8_decode_utf8(head@);
            assert(encode_utf8(head@) =~= encode_utf8(command@).take(18));
        }
        out.push_str("..");
        out
    } else {
        command.to_owned()
    }
}

/// Whether all commands of a batch can be shown.
pub open spec fn batch_can_be_shown(batch: BatchView) -> bool {
    forall|c: int|
        0 <= c < batch.commands.len() ==> can_be_shown((#[trigger] batch.commands[c]).command)
}

/// Whether a command can be shown.
pub fn is_showable(command: &str) -> (r: bool)
    ensures
        r == can_be_shown(command@),
{
    command.as_bytes().len() <= 20 || command.is_char_boundary(18)
}

/// The row of a command.
fn show_command(batch: &CommandBatch, b: usize, c: usize, current: usize, elapsed_secs: u64) -> (r:
    CommandRow)
    requires
        c < batch.commands@.len(),
        can_be_shown(batch.commands@[c as int].command@),
    ensures
        r@ == command_row(batch@, b as int, c as int, current as int, elapsed_secs),
{
    let style = if b == current && !batch.sent {
        RowStyle::Focused
    } else if batch.sent {
        RowStyle::Sent
    } else {
        RowStyle::Waiting
    };
    let marker = if style == RowStyle::Focused {
        ">"
    } else {
        " "
    };
    let sent_time = if batch.sent {
        match batch.sent_at {
            Some(secs) => format_elapsed(secs),
            None => format_elapsed(batch.time),
        }
    } else {
        "        ".to_owned()
    };
    let delta = if c == 0 {
        let mut out = "+".to_owned();
        out.push_str(text::decimal_of(batch.delta as u128).as_str());
        out.push_str("s");
        out
    } else {
        "    ".to_owned()
    };
    let status = match style {
        RowStyle::Sent => "sent".to_owned(),
        RowStyle::Focused => {
            let left: u64 = if batch.time >= elapsed_secs {
                batch.time - elapsed_secs
            } else {
                0
            };
            let mut out = text::decimal_of(left as u128);
            out.push_str("s");
            out
        },
        RowStyle::Waiting => String::new(),
    };
    let command = &batch.commands[c];
    assert(batch@.commands[c as int] == command@);
    let mut content = " ".to_owned();
    content.push_str(marker);
    content.push_str(" ");
    content.push_str(sent_time.as_str());
    content.push_str("  ");
    content.push_str(text::pad_right(delta.as_str(), 6).as_str());
    content.push_str(" ");
    content.push_str(text::pad_right(command.peer.as_str(), 10).as_str());
    content.push_str(" ");
    content.push_str(text::pad_right(command.host.as_str(), 16).as_str());
    content.push_str(" ");
    content.push_str(text::pad_right(cut_command(command.command.as_str()).as_str(), 20).as_str());
    content.push_str(" ");
    content.push_str(status.as_str());
    CommandRow { content, style }
}

/// The rows of the timeline, and how far it is scrolled in a pane of the given height.
pub fn render_commands(
    inner_height: u16,
    batches: &Vec<CommandBatch>,
    current_batch_idx: usize,
    elapsed_secs: u64,
) -> (r: (Vec<CommandRow>, u16))
    requires
        forall|b: int| 0 <= b < batches@.len() ==> batch_can_be_shown((#[trigger] batches@[b])@),
    ensures
        rows_view(r.0@) == timeline(
            batches_view(batches@),
            current_batch_idx as int,
            elapsed_secs,
            batches@.len() as int,
        ),
        r.1 == scroll_offset(
            batches_view(batches@),
            current_batch_idx as int,
            inner_height as int,
        ),
{
    let mut rows: Vec<CommandRow> = Vec::new();
    let mut focused: Option<usize> = None;
    let mut b: usize = 0;
    let ghost views = batches_view(batches@);
    let ghost current = current_batch_idx as int;
    assert(rows_view(rows@) =~= Seq::empty());
    while b < batches.len()
        invariant
            b <= batches@.len(),
            views == batches_view(batches@),
            current == current_batch_idx,
            forall|b: int|
                0 <= b < batches@.len() ==> batch_can_be_shown((#[trigger] batches@[b])@),
            rows_view(rows@) == timeline(views, current, elapsed_secs, b as int),
            rows@.len() == row_count(views, b as int),
            match focused {
                Some(row) => current < b && !views[current].sent && views[current].commands.len()
                    > 0 && row == row_count(views, current),
                None => !(current < b && !views[current].sent && views[current].commands.len() > 0),
            },
        decreases batches@.len() - b,
    {
        let batch = &batches[b];
        let ghost done = rows_view(rows@);
        let ghost wanted = batch_rows(views[b as int], b as int, current, elapsed_secs);
        assert(views[b as int] == batch@);
        assert(batch_can_be_shown(batches@[b as int]@));
        if b == current_batch_idx && !batch.sent && batch.commands.len() > 0 {
            focused = Some(rows.len());
        }
        let mut c: usize = 0;
        assert(done + wanted.take(0) =~= done);
        while c < batch.commands.len()
            invariant
                c <= batch.commands@.len(),
                b < batches@.len(),
                batch@ == views[b as int],
                current == current_batch_idx,
                batch_can_be_shown(batch@),
                wanted == batch_rows(views[b as int], b as int, current, elapsed_secs),
                rows_view(rows@) == done + wanted.take(c as int),
            decreases batch.commands@.len() - c,
        {
            let ghost before = rows@;
            assert(can_be_shown(batch@.commands[c as int].command));
            let row = show_command(batch, b, c, current_batch_idx, elapsed_secs);
            let ghost entry = row@;
            assert(entry == wanted[c as int]);
            rows.push(row);
            assert(rows_view(rows@) =~= rows_view(before).push(entry));
            assert(wanted.take(c + 1) =~= wanted.take(c as int).push(wanted[c as int]));
            assert(rows_view(rows@) =~= done + wanted.take(c + 1));
            c = c + 1;
        }
        assert(wanted.take(wanted.len() as int) =~= wanted);
        assert(rows_view(rows@).len() == rows@.len());
        b = b + 1;
    }
    let half = inner_height as usize / 2;
    let offset: usize = match focused {
        Some(row) if row > half => (row - half) % 65536,
        _ => 0,
    };
    (rows, offset as u16)
}

/// An ASCII command of more than 20 characters is shown by its first 18 and two dots; a shorter one
/// is shown whole.
pub proof fn long_ascii_commands_are_cut(command: Seq<char>)
    requires
        is_ascii_chars(command),
    ensures
        can_be_shown(command),
        shown_command(command) == if command.len() > 20 {
            command.take(18) + ".."@
        } else {
            command
        },
{
    is_ascii_chars_encode_utf8(command);
    if command.len() > 20 {
        let head = command.take(18);
        assert(is_ascii_chars(head));
        is_ascii_chars_encode_utf8(head);
        assert(encode_utf8(command).take(18) =~= encode_utf8(head));
        encode_utf8_decode_utf8(head);
        encode_utf8_valid_utf8(command);
        is_char_boundary_iff_not_is_continuation_byte(encode_utf8(command), 18);
        let byte = encode_utf8(command)[18];
        assert(byte == command[18] as u8);
        assert(byte < 128);
        assert(!is_continuation_byte(byte)) by {
            utf8_byte_ranges_bitwise(byte);
        }
    }
}

/// A peer's commands are shown with the address of its host: that of the last assignment for the peer,
/// and a question mark where it has none.
pub proof fn hosts_are_found(assignments: Seq<AssignmentView>, peer: Seq<char>, a: int, n: int)
    requires
        0 <= n <= assignments.len(),
        forall|k: int| a < k < n ==> (#[trigger] assignments[k]).peer_name != peer,
        -1 <= a < n,
        0 <= a ==> assignments[a].peer_name == peer,
    ensures
        0 <= a ==> host_of_peer(assignments, peer, n) == assignments[a].host.address,
        a == -1 ==> host_of_peer(assignments, peer, n) == "?"@,
    decreases n,
{
    if n > 0 && a < n - 1 {
        assert(assignments[n - 1].peer_name != peer);
        hosts_are_found(assignments, peer, a, n - 1);
    }
}

/// A clock shows hours, minutes below 60 and seconds below 60 that make up the time.
pub proof fn clocks_tell_the_time(secs: nat) -> (parts: (nat, nat, nat))
    ensures
        parts.0 * 3600 + parts.1 * 60 + parts.2 == secs,
        parts.1 < 60,
        parts.2 < 60,
        clock(secs) == two_digit_text(parts.0) + ":"@ + two_digit_text(parts.1) + ":"@
            + two_digit_text(parts.2),
{
    let rest = secs % 3600;
    assert(secs % 60 == rest % 60) by (nonlinear_arith)
        requires
            rest == secs % 3600,
    ;
    (secs / 3600, rest / 60, secs % 60)
}

/// Numbers on a clock have two digits, or more where they need more, and mean what they say.
pub proof fn clock_numbers_have_two_digits(n: u64)
    ensures
        n < 10 ==> two_digit_text(n as nat) == seq!['0', ('0' as int + n) as char],
        n >= 10 ==> two_digit_text(n as nat) == text::decimal(n as nat),
{
    text::padding_fills_up(text::decimal(n as nat), 2, '0');
    if n < 10 {
        assert(text::decimal(n as nat).len() == 1);
        assert(two_digit_text(n as nat) =~= seq!['0', ('0' as int + n) as char]);
    } else {
        assert(text::decimal((n / 10) as nat).len() >= 1);
    }
}

/// The timeline has one row for each command, in order: the rows of a batch follow those of the
/// batches before it.
pub proof fn every_command_has_its_row(
    batches: Seq<BatchView>,
    current: int,
    elapsed: u64,
    n: int,
    b: int,
    c: int,
)
    requires
        0 <= n <= batches.len(),
    ensures
        timeline(batches, current, elapsed, n).len() == row_count(batches, n),
        0 <= b < n && 0 <= c < batches[b].commands.len() ==> 0 <= row_count(batches, b) + c
            < row_count(batches, n) && timeline(batches, current, elapsed, n)[row_count(batches, b)
            + c] == command_row(batches[b], b, c, current, elapsed),
        0 <= row_count(batches, n),
    decreases n,
{
    if n > 0 {
        every_command_has_its_row(batches, current, elapsed, n - 1, b, c);
        if b == n - 1 {
            let front = timeline(batches, current, elapsed, n - 1);
            assert(front.len() == row_count(batches, b));
        }
    }
}

/// A row is marked if and only if its batch is the current one and not sent yet, and then it ends with
/// the seconds that are left. The row of a batch that was sent shows when, and ends with `sent`.
pub proof fn rows_tell_what_becomes_of_commands(
    batch: BatchView,
    b: int,
    c: int,
    current: int,
    elapsed: u64,
)
    ensures
        ({
            let row = command_row(batch, b, c, current, elapsed);
            let left = if batch.time > elapsed {
                batch.time - elapsed
            } else {
                0
            };
            let end = if batch.sent {
                " sent"@
            } else if b == current {
                " "@ + text::decimal(left as nat) + "s"@
            } else {
                " "@
            };
            &&& row.content.len() >= 3
            &&& row.content[1] == '>' <==> b == current && !batch.sent
            &&& row.style == RowStyle::Sent <==> batch.sent
            &&& row.style == RowStyle::Focused <==> b == current && !batch.sent
            &&& row.content.len() >= end.len()
            &&& row.content.skip(row.content.len() - end.len()) == end
            &&& batch.sent && batch.sent_at is Some ==> text::occurs(
                clock(batch.sent_at->0 as nat),
                row.content,
            )
        }),
{
    reveal_strlit(">");
    reveal_strlit(" ");
    reveal_strlit("sent");
    reveal_strlit(" sent");
    let row = command_row(batch, b, c, current, elapsed);
    let left = if batch.time > elapsed {
        batch.time - elapsed
    } else {
        0
    };
    let end = if batch.sent {
        " sent"@
    } else if b == current {
        " "@ + text::decimal(left as nat) + "s"@
    } else {
        " "@
    };
    assert(" sent"@ =~= " "@ + "sent"@);
    assert(row.content.skip(row.content.len() - end.len()) =~= end);
    if batch.sent && batch.sent_at is Some {
        let time = clock(batch.sent_at->0 as nat);
        let start = row.content.take(3);
        let rest = row.content.skip(3 + time.len() as int);
        text::parts_occur(start, time, rest);
        assert(row.content.subrange(3, 3 + time.len() as int) =~= time);
        assert(start + time + rest =~= row.content);
    }
}

/// A row holds the peer, its host and the command as it is shown; the first row of a batch holds the
/// batch's delta.
pub proof fn rows_hold_their_commands(
    batch: BatchView,
    b: int,
    c: int,
    current: int,
    elapsed: u64,
)
    ensures
        ({
            let row = command_row(batch, b, c, current, elapsed);
            let command = batch.commands[c];
            &&& text::occurs(command.peer, row.content)
            &&& text::occurs(command.host, row.content)
            &&& text::occurs(shown_command(command.command), row.content)
            &&& c == 0 ==> text::occurs(
                "+"@ + text::decimal(batch.delta as nat) + "s"@,
                row.content,
            )
        }),
{
    let command = batch.commands[c];
    let style = row_style(batch, b, current);
    let marker = if style == RowStyle::Focused {
        ">"@
    } else {
        " "@
    };
    let sent_time = if batch.sent {
        match batch.sent_at {
            Some(secs) => clock(secs as nat),
            None => clock(batch.time as nat),
        }
    } else {
        "        "@
    };
    let delta = if c == 0 {
        "+"@ + text::decimal(batch.delta as nat) + "s"@
    } else {
        "    "@
    };
    let status = match style {
        RowStyle::Sent => "sent"@,
        RowStyle::Focused => text::decimal(time_since(batch.time, elapsed) as nat) + "s"@,
        RowStyle::Waiting => Seq::empty(),
    };
    let start = " "@ + marker + " "@ + sent_time + "  "@;
    columns_hold_their_texts(
        start,
        seq![delta, command.peer, command.host, shown_command(command.command)],
        status,
    );
}

proof fn columns_hold_their_texts(start: Seq<char>, t: Seq<Seq<char>>, end: Seq<char>)
    requires
        t.len() == 4,
    ensures
        ({
            let whole = start + text::padded_right(t[0], 6, ' ') + " "@ + text::padded_right(
                t[1],
                10,
                ' ',
            ) + " "@ + text::padded_right(t[2], 16, ' ') + " "@ + text::padded_right(t[3], 20, ' ')
                + " "@ + end;
            &&& text::occurs(t[0], whole)
            &&& text::occurs(t[1], whole)
            &&& text::occurs(t[2], whole)
            &&& text::occurs(t[3], whole)
        }),
{
    let c0 = text::padded_right(t[0], 6, ' ');
    let c1 = text::padded_right(t[1], 10, ' ');
    let c2 = text::padded_right(t[2], 16, ' ');
    let c3 = text::padded_right(t[3], 20, ' ');
    let s = " "@;
    let whole = start + c0 + s + c1 + s + c2 + s + c3 + s + end;
    column_holds_its_text(start, t[0], 6, s + c1 + s + c2 + s + c3 + s + end);
    assert(start + c0 + (s + c1 + s + c2 + s + c3 + s + end) =~= whole);
    column_holds_its_text(start + c0 + s, t[1], 10, s + c2 + s + c3 + s + end);
    assert(start + c0 + s + c1 + (s + c2 + s + c3 + s + end) =~= whole);
    column_holds_its_text(start + c0 + s + c1 + s, t[2], 16, s + c3 + s + end);
    assert(start + c0 + s + c1 + s + c2 + (s + c3 + s + end) =~= whole);
    column_holds_its_text(start + c0 + s + c1 + s + c2 + s, t[3], 20, s + end);
    assert(start + c0 + s + c1 + s + c2 + s + c3 + (s + end) =~= whole);
}

proof fn column_holds_its_text(before: Seq<char>, t: Seq<char>, width: int, after: Seq<char>)
    requires
        0 <= width,
    ensures
        text::occurs(t, before + text::padded_right(t, width, ' ') + after),
{
    let column = text::padded_right(t, width, ' ');
    text::padding_fills_up(t, width, ' ');
    let rest = column.skip(t.len() as int) + after;
    text::parts_occur(before, t, rest);
    assert(column =~= column.take(t.len() as int) + column.skip(t.len() as int));
    assert(before + t + rest =~= before + column + after);
}

/// The column for the delta holds it on the first row of a batch alone, and the column for the time
/// is blank as long as the batch is not sent.
pub proof fn columns_are_blank_where_nothing_is_told(
    batch: BatchView,
    b: int,
    c: int,
    current: int,
    elapsed: u64,
)
    requires
        !batch.sent,
    ensures
        ({
            let row = command_row(batch, b, c, current, elapsed).content;
            &&& row.len() >= 19
            &&& forall|k: int| 2 <= k < 13 ==> #[trigger] row[k] == ' '
            &&& c > 0 ==> forall|k: int| 13 <= k < 20 ==> #[trigger] row[k] == ' '
            &&& c == 0 ==> row[13] == '+'
        }),
{
    reveal_strlit(">");
    reveal_strlit(" ");
    reveal_strlit("  ");
    reveal_strlit("    ");
    reveal_strlit("        ");
    reveal_strlit("+");
}

/// The batch that is sent next begins in the upper half of the pane or in the middle of it; in the
/// middle wherever anything is scrolled away above it. Nothing is scrolled while no batch is next.
pub proof fn next_batch_stays_in_sight(batches: Seq<BatchView>, current: int, height: int)
    requires
        0 <= height,
        0 <= current < batches.len() ==> row_count(batches, current) < 65536,
    ensures
        ({
            let offset = scroll_offset(batches, current, height);
            let first = row_count(batches, current);
            let is_next = 0 <= current < batches.len() && !batches[current].sent
                && batches[current].commands.len() > 0;
            &&& offset >= 0
            &&& !is_next ==> offset == 0
            &&& is_next ==> first - offset <= height / 2
            &&& is_next && first <= height / 2 ==> offset == 0
            &&& offset > 0 ==> first - offset == height / 2
        }),
{
}

/// The name, the host and the status of a peer are shown, in the colour of the status; a peer of which
/// nothing is known is shown as pending.
pub proof fn peers_are_shown_with_their_status(
    statuses: Map<Seq<char>, Seq<char>>,
    assignment: AssignmentView,
)
    ensures
        ({
            let entry = peer_entry(statuses, assignment);
            let status = if statuses.contains_key(assignment.peer_name) {
                statuses[assignment.peer_name]
            } else {
                "pending"@
            };
            &&& text::occurs(assignment.peer_name, entry.content)
            &&& text::occurs(assignment.host.address, entry.content)
            &&& entry.content.len() >= status.len()
            &&& entry.content.skip(entry.content.len() - status.len()) == status
            &&& entry.color == Some(color_of(status))
        }),
{
    let entry = peer_entry(statuses, assignment);
    let status = shown_status(statuses, assignment.peer_name);
    let s = " "@;
    let name = text::padded_right(assignment.peer_name, 10, ' ');
    let host = text::padded_right(assignment.host.address, 16, ' ');
    column_holds_its_text(s, assignment.peer_name, 10, s + host + s + status);
    assert(s + name + (s + host + s + status) =~= entry.content);
    column_holds_its_text(s + name + s, assignment.host.address, 16, s + status);
    assert(s + name + s + host + (s + status) =~= entry.content);
    assert(entry.content.skip(entry.content.len() - status.len()) =~= status);
}

/// Every peer stands on one line, two on each: peer `i` first or last on line `i / 2`. Between two, a
/// gap without colour fills the first half of the pane.
pub proof fn every_peer_has_its_place(
    statuses: Map<Seq<char>, Seq<char>>,
    assignments: Seq<AssignmentView>,
    half_width: int,
    i: int,
)
    requires
        0 <= i < assignments.len(),
    ensures
        ({
            let line = peer_line(statuses, assignments, half_width, i / 2);
            let entry = peer_entry(statuses, assignments[i]);
            &&& i % 2 == 0 ==> line[0] == entry
            &&& i % 2 == 1 ==> line.len() == 3 && line[2] == entry
            &&& i % 2 == 0 && i + 1 == assignments.len() ==> line.len() == 1
            &&& line.len() == 3 ==> line[1].color is None && (outside::columns(line[0].content)
                <= half_width ==> line[1].content.len() == half_width - outside::columns(
                line[0].content,
            ))
            &&& line.len() == 3 && outside::columns(line[0].content) >= half_width
                ==> line[1].content.len() == 0
        }),
{
    assert(i % 2 == 0 ==> 2 * (i / 2) == i);
    assert(i % 2 == 1 ==> 2 * (i / 2) + 1 == i);
}

/// Each colour stands for its statuses and for no others.
pub proof fn colors_stand_for_statuses(status: Seq<char>)
    ensures
        color_of(status) == Color::Green <==> status == "connected"@,
        color_of(status) == Color::Yellow <==> status == "connecting"@ || status
            == "disconnecting"@,
        color_of(status) == Color::Red <==> status == "disconnected"@ || status == "stopped"@,
        color_of(status) == Color::White <==> status == "started"@,
{
    reveal_strlit("connected");
    reveal_strlit("connecting");
    reveal_strlit("disconnecting");
    reveal_strlit("disconnected");
    reveal_strlit("stopped");
    reveal_strlit("started");
    assert("connected"@.len() == 9);
    assert("connecting"@.len() == 10);
    assert("disconnecting"@.len() == 13);
    assert("disconnected"@.len() == 12);
    assert("stopped"@[2] != "started"@[2]);
}

// ---------------------------------------------------------------------------------------------
// Input
// ---------------------------------------------------------------------------------------------
/// What the user wants.
#[derive(Debug, Clone, Copy, PartialEq, Eq, Structural)]
pub enum InputEvent {
    Quit,
}

/// What a character key means, pressed alone or with the control key.
pub fn poll_input(key: char, control: bool) -> (r: Option<InputEvent>)
    ensures
        r == if key == 'q' || (key == 'c' && control) {
            Some(InputEvent::Quit)
        } else {
            None
        },
{
    if key == 'q' || (key == 'c' && control) {
        Some(InputEvent::Quit)
    } else {
        None
    }
}

} // verus!
