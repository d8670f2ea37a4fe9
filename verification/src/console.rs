//! Log lines on the console: how they are put together, and how bytes become whole lines.
use vstd::prelude::*;
use vstd::slice::*;
use vstd::utf8::*;

use crate::config;
use crate::config::LogLevel;
use crate::outside;
use crate::text;

verus! {

// ---------------------------------------------------------------------------------------------
// Lines out of bytes
// ---------------------------------------------------------------------------------------------
/// The position of the first line feed, or the number of bytes where there is none.
pub open spec fn line_end(bytes: Seq<u8>) -> int
    decreases bytes.len(),
{
    if bytes.len() == 0 || bytes[0] == 10 {
        0
    } else {
        1 + line_end(bytes.drop_first())
    }
}

proof fn line_end_is_first(bytes: Seq<u8>)
    ensures
        0 <= line_end(bytes) <= bytes.len(),
        line_end(bytes) < bytes.len() ==> bytes[line_end(bytes)] == 10,
        forall|k: int| 0 <= k < line_end(bytes) ==> bytes[k] != 10,
    decreases bytes.len(),
{
    if bytes.len() > 0 && bytes[0] != 10 {
        let rest = bytes.drop_first();
        line_end_is_first(rest);
        if line_end(rest) < rest.len() {
            assert(bytes[line_end(rest) + 1] == rest[line_end(rest)]);
        }
        assert forall|k: int| 0 <= k < line_end(bytes) implies bytes[k] != 10 by {
            if k > 0 {
                assert(bytes[k] == rest[k - 1]);
            }
        }
    }
}

proof fn line_end_is_unique(bytes: Seq<u8>, n: int)
    requires
        0 <= n <= bytes.len(),
        forall|k: int| 0 <= k < n ==> bytes[k] != 10,
        n < bytes.len() ==> bytes[n] == 10,
    ensures
        line_end(bytes) == n,
{
    line_end_is_first(bytes);
    if line_end(bytes) < n {
        assert(bytes[line_end(bytes)] == 10);
    }
}

/// The lines that are complete, without their line feeds.
pub open spec fn complete_lines(bytes: Seq<u8>) -> Seq<Seq<u8>>
    decreases bytes.len(),
    via complete_lines_decreases
{
    if line_end(bytes) < bytes.len() {
        seq![bytes.take(line_end(bytes))] + complete_lines(bytes.skip(line_end(bytes) + 1))
    } else {
        Seq::empty()
    }
}

#[via_fn]
proof fn complete_lines_decreases(bytes: Seq<u8>) {
    line_end_is_first(bytes);
}

/// What follows the last line feed.
pub open spec fn unfinished(bytes: Seq<u8>) -> Seq<u8>
    decreases bytes.len(),
    via unfinished_decreases
{
    if line_end(bytes) < bytes.len() {
        unfinished(bytes.skip(line_end(bytes) + 1))
    } else {
        bytes
    }
}

#[via_fn]
proof fn unfinished_decreases(bytes: Seq<u8>) {
    line_end_is_first(bytes);
}

/// Lines with a line feed behind each.
pub open spec fn with_line_feeds(lines: Seq<Seq<u8>>) -> Seq<u8>
    decreases lines.len(),
{
    if lines.len() == 0 {
        Seq::empty()
    } else {
        lines[0] + seq![10u8] + with_line_feeds(lines.drop_first())
    }
}

/// No byte is lost: the complete lines and what is unfinished make up all bytes, and neither holds a
/// line feed.
pub proof fn lines_keep_all_bytes(bytes: Seq<u8>)
    ensures
        with_line_feeds(complete_lines(bytes)) + unfinished(bytes) == bytes,
        !unfinished(bytes).contains(10u8),
        forall|i: int|
            0 <= i < complete_lines(bytes).len() ==> !(#[trigger] complete_lines(
                bytes,
            )[i]).contains(10u8),
    decreases bytes.len(),
{
    line_end_is_first(bytes);
    let n = line_end(bytes);
    if n < bytes.len() {
        let rest = bytes.skip(n + 1);
        lines_keep_all_bytes(rest);
        let lines = complete_lines(bytes);
        assert(lines.drop_first() =~= complete_lines(rest));
        assert(lines[0] == bytes.take(n));
        assert(with_line_feeds(lines) + unfinished(bytes) =~= bytes.take(n) + seq![10u8] + (
        with_line_feeds(complete_lines(rest)) + unfinished(rest)));
        assert(bytes =~= bytes.take(n) + seq![10u8] + rest);
        assert forall|i: int| 0 <= i < lines.len() implies !(#[trigger] lines[i]).contains(10u8) by {
            if i > 0 {
                assert(lines[i] == complete_lines(rest)[i - 1]);
            }
        }
    }
}

/// It makes no difference how bytes are cut into pieces: what was unfinished is taken up again.
pub proof fn pieces_make_no_difference(a: Seq<u8>, b: Seq<u8>)
    ensures
        complete_lines(a + b) == complete_lines(a) + complete_lines(unfinished(a) + b),
        unfinished(a + b) == unfinished(unfinished(a) + b),
    decreases a.len(),
{
    line_end_is_first(a);
    let n = line_end(a);
    if n < a.len() {
        let rest = a.skip(n + 1);
        pieces_make_no_difference(rest, b);
        let whole = a + b;
        assert forall|k: int| 0 <= k < n implies whole[k] != 10 by {
            assert(whole[k] == a[k]);
        }
        line_end_is_unique(whole, n);
        assert(whole.take(n) =~= a.take(n));
        assert(whole.skip(n + 1) =~= rest + b);
        assert(complete_lines(whole) =~= complete_lines(a) + complete_lines(unfinished(a) + b));
    } else {
        assert(complete_lines(a) =~= Seq::empty());
        assert(complete_lines(a) + complete_lines(a + b) =~= complete_lines(a + b));
    }
}

/// Collects bytes until they make up a line.
pub struct LineBuffer {
    buf: Vec<u8>,
}

impl View for LineBuffer {
    type V = Seq<u8>;

    closed spec fn view(&self) -> Seq<u8> {
        self.buf@
    }
}

/// The texts of lines.
pub open spec fn line_texts(lines: Seq<Seq<u8>>) -> Seq<Seq<char>> {
    Seq::new(lines.len(), |i: int| outside::lossy_text(lines[i]))
}

/// Whether it is known of those lines that are valid UTF-8 that they are read as what they encode.
pub open spec fn valid_lines_are_known(lines: Seq<Seq<u8>>) -> bool {
    forall|i: int|
        0 <= i < lines.len() && valid_utf8(#[trigger] lines[i]) ==> outside::lossy_text(lines[i])
            == decode_utf8(lines[i])
}

impl LineBuffer {
    pub fn new() -> (r: Self)
        ensures
            r@ == Seq::<u8>::empty(),
    {
        LineBuffer { buf: Vec::new() }
    }

    /// Takes bytes and gives the lines that are complete with them.
    pub fn write(&mut self, data: &[u8]) -> (r: Vec<String>)
        ensures
            text::texts(r@) == line_texts(complete_lines(old(self)@ + data@)),
            final(self)@ == unfinished(old(self)@ + data@),
            valid_lines_are_known(complete_lines(old(self)@ + data@)),
    {
        let ghost all = self.buf@ + data@;
        self.buf.extend_from_slice(data);
        assert(self.buf@ =~= all);
        let bytes = self.buf.as_slice();
        let mut lines = text::no_texts();
        let mut from: usize = 0;
        let mut i: usize = 0;
        let ghost mut done: Seq<Seq<u8>> = Seq::empty();
        proof {
            assert(all.skip(0) =~= all);
            assert(complete_lines(all) =~= done + complete_lines(all));
            assert(text::texts(lines@) =~= line_texts(done));
        }
        while i < bytes.len()
            invariant
                from <= i <= bytes@.len(),
                bytes@ == all,
                forall|k: int| from <= k < i ==> all[k] != 10,
                complete_lines(all) == done + complete_lines(all.skip(from as int)),
                text::texts(lines@) == line_texts(done),
                valid_lines_are_known(done),
                unfinished(all) == unfinished(all.skip(from as int)),
            decreases bytes@.len() - i,
        {
            if bytes[i] == 10 {
                let ghost rest = all.skip(from as int);
                let ghost before = text::texts(lines@);
                let line = outside::text_of_bytes(slice_subrange(bytes, from, i));
                text::push_text(&mut lines, line.as_str());
                proof {
                    let bytes_of_line = all.subrange(from as int, i as int);
                    let after = all.skip(i + 1);
                    line_end_is_unique(rest, i - from);
                    assert(rest.take(i - from) =~= bytes_of_line);
                    assert(rest.skip(i - from + 1) =~= after);
                    assert(done + (seq![bytes_of_line] + complete_lines(after)) =~= done.push(
                        bytes_of_line,
                    ) + complete_lines(after));
                    assert(before.push(line@) =~= line_texts(done.push(bytes_of_line)));
                    done = done.push(bytes_of_line);
                }
                from = i + 1;
            }
            i = i + 1;
        }
        proof {
            line_end_is_unique(all.skip(from as int), all.len() - from);
            assert(complete_lines(all.skip(from as int)) =~= Seq::empty());
            assert(complete_lines(all) =~= done);
        }
        let rest = slice_to_vec(slice_subrange(bytes, from, bytes.len()));
        assert(rest@ =~= all.skip(from as int));
        self.buf = rest;
        lines
    }

    /// Gives what is unfinished as a line of its own, if there is anything.
    pub fn flush(&mut self) -> (r: Option<String>)
        ensures
            final(self)@ == Seq::<u8>::empty(),
            config::option_text(r) == if old(self)@.len() == 0 {
                None
            } else {
                Some(outside::lossy_text(old(self)@))
            },
            old(self)@.len() > 0 ==> valid_lines_are_known(seq![old(self)@]),
    {
        if self.buf.len() == 0 {
            assert(self.buf@ =~= Seq::empty());
            return None;
        }
        let line = outside::text_of_bytes(self.buf.as_slice());
        self.buf = Vec::new();
        Some(line)
    }
}

// ---------------------------------------------------------------------------------------------
// Log lines
// ---------------------------------------------------------------------------------------------
/// The fields of a log event that its line is made of.
pub struct FieldVisitor {
    message: String,
    peer: Option<String>,
    peer_name: Option<String>,
    direction: Option<String>,
}

/// What the fields say.
pub struct FieldsView {
    pub message: Seq<char>,
    pub peer: Option<Seq<char>>,
    pub peer_name: Option<Seq<char>>,
    pub direction: Option<Seq<char>>,
}

impl View for FieldVisitor {
    type V = FieldsView;

    closed spec fn view(&self) -> FieldsView {
        FieldsView {
            message: self.message@,
            peer: config::option_text(self.peer),
            peer_name: config::option_text(self.peer_name),
            direction: config::option_text(self.direction),
        }
    }
}

/// The fields with one more: of two values for a field the later one counts, and a field that the
/// line has no use for is passed over.
pub open spec fn with_field(fields: FieldsView, field: Seq<char>, value: Seq<char>) -> FieldsView {
    if field == "message"@ {
        FieldsView { message: value, ..fields }
    } else if field == "peer"@ {
        FieldsView { peer: Some(value), ..fields }
    } else if field == "peer_name"@ {
        FieldsView { peer_name: Some(value), ..fields }
    } else if field == "direction"@ {
        FieldsView { direction: Some(value), ..fields }
    } else {
        fields
    }
}

impl FieldVisitor {
    /// No fields yet.
    pub fn new() -> (r: Self)
        ensures
            r@ == (FieldsView {
                message: Seq::empty(),
                peer: None,
                peer_name: None,
                direction: None,
            }),
    {
        FieldVisitor { message: String::new(), peer: None, peer_name: None, direction: None }
    }

    /// Takes note of a field and its value as text.
    pub fn record(&mut self, field: &str, value: String)
        ensures
            final(self)@ == with_field(old(self)@, field@, value@),
    {
        proof {
            reveal_strlit("message");
            reveal_strlit("peer");
            reveal_strlit("peer_name");
            reveal_strlit("direction");
        }
        if text::same_text(field, "message") {
            self.message = value;
        } else if text::same_text(field, "peer") {
            self.peer = Some(value);
        } else if text::same_text(field, "peer_name") {
            self.peer_name = Some(value);
        } else if text::same_text(field, "direction") {
            self.direction = Some(value);
        }
    }
}

/// Puts log lines together, with colours or without.
pub struct PeerAwareFormatter {
    ansi: bool,
}

/// The name of a level as it is shown.
pub open spec fn level_name(level: LogLevel) -> Seq<char> {
    match level {
        LogLevel::Error => "ERROR"@,
        LogLevel::Warn => "WARN"@,
        LogLevel::Info => "INFO"@,
        LogLevel::Debug => "DEBUG"@,
        LogLevel::Trace => "TRACE"@,
    }
}

/// The sequence that begins the colour of a level.
pub open spec fn level_color(level: LogLevel) -> Seq<char> {
    match level {
        LogLevel::Error => "\x1b[31m"@,
        LogLevel::Warn => "\x1b[33m"@,
        LogLevel::Info => "\x1b[32m"@,
        LogLevel::Debug => "\x1b[34m"@,
        LogLevel::Trace => "\x1b[35m"@,
    }
}

/// A level as it stands in a line: five columns wide, in its colour where colours are wanted.
pub open spec fn level_part(level: LogLevel, ansi: bool) -> Seq<char> {
    if ansi {
        level_color(level) + text::padded_left(level_name(level), 5, ' ') + "\x1b[0m"@
    } else {
        text::padded_left(level_name(level), 5, ' ')
    }
}

/// Who a line is from: a peer that logs, a peer that something is told of, with the direction, or a
/// part of the program.
pub open spec fn origin_part(target: Seq<char>, fields: FieldsView) -> Seq<char> {
    match (fields.peer, fields.peer_name) {
        (Some(peer), _) => peer,
        (None, Some(name)) => "["@ + name + "]"@ + match fields.direction {
            Some(direction) => direction,
            None => ":"@,
        },
        (None, None) => (if text::begins_with(target, "the_mule"@) {
            "tm"@
        } else {
            target
        }) + ":"@,
    }
}

/// A log line.
pub open spec fn line_text(
    time: Seq<char>,
    level: LogLevel,
    ansi: bool,
    target: Seq<char>,
    fields: FieldsView,
) -> Seq<char> {
    time + " "@ + level_part(level, ansi) + " "@ + origin_part(target, fields) + " "@
        + fields.message + "\n"@
}

impl PeerAwareFormatter {
    /// Whether lines have colours.
    pub closed spec fn has_colors(&self) -> bool {
        self.ansi
    }

    pub fn new(ansi: bool) -> (r: Self)
        ensures
            r.has_colors() == ansi,
    {
        PeerAwareFormatter { ansi }
    }

    /// A level as it stands in a line.
    fn show_level(&self, level: LogLevel) -> (r: String)
        ensures
            r@ == level_part(level, self.has_colors()),
    {
        let name = match level {
            LogLevel::Error => "ERROR",
            LogLevel::Warn => "WARN",
            LogLevel::Info => "INFO",
            LogLevel::Debug => "DEBUG",
            LogLevel::Trace => "TRACE",
        };
        let padded = text::pad_left(name, 5, ' ');
        if !self.ansi {
            return padded;
        }
        let color = match level {
            LogLevel::Error => "\x1b[31m",
            LogLevel::Warn => "\x1b[33m",
            LogLevel::Info => "\x1b[32m",
            LogLevel::Debug => "\x1b[34m",
            LogLevel::Trace => "\x1b[35m",
        };
        let mut out = color.to_owned();
        out.push_str(padded.as_str());
        out.push_str("\x1b[0m");
        out
    }

    /// The line of an event that happened at the given time.
    pub fn line(&self, time: &str, level: LogLevel, target: &str, fields: &FieldVisitor) -> (r:
        String)
        ensures
            r@ == line_text(time@, level, self.has_colors(), target@, fields@),
    {
        let origin = match &fields.peer {
            Some(peer) => peer.clone(),
            None => match &fields.peer_name {
                Some(name) => {
                    let mut out = "[".to_owned();
                    out.push_str(name.as_str());
                    out.push_str("]");
                    match &fields.direction {
                        Some(direction) => {
                            out.push_str(direction.as_str());
                        },
                        None => {
                            out.push_str(":");
                        },
                    }
                    out
                },
                None => {
                    let short = text::starts_with(&text::chars_of(target), "the_mule");
                    let mut out = if short {
                        "tm".to_owned()
                    } else {
                        target.to_owned()
                    };
                    out.push_str(":");
                    out
                },
            },
        };
        let mut out = time.to_owned();
        out.push_str(" ");
        out.push_str(self.show_level(level).as_str());
        out.push_str(" ");
        out.push_str(origin.as_str());
        out.push_str(" ");
        out.push_str(fields.message.as_str());
        out.push_str("\n");
        out
    }

    /// The line of an event that happened at a moment, in seconds since 1970 and nanoseconds; none
    /// where the moment is out of range.
    pub fn format_event(
        &self,
        secs: i64,
        nanos: u32,
        level: LogLevel,
        target: &str,
        fields: &FieldVisitor,
    ) -> (r: Option<String>)
        ensures
            config::option_text(r) == match outside::formatted_time(
                secs,
                nanos,
                outside::line_time_format(),
            ) {
                Some(time) => Some(line_text(time, level, self.has_colors(), target@, fields@)),
                None => None,
            },
    {
        match outside::format_time(secs, nanos, "%Y-%m-%dT%H:%M:%S%.6fZ") {
            Some(time) => Some(self.line(time.as_str(), level, target, fields)),
            None => None,
        }
    }
}

/// Fields that are recorded one after the other keep to themselves: each of the four known ones holds
/// the last value that was recorded for it, and any other field changes nothing.
pub proof fn fields_keep_to_themselves(fields: FieldsView, field: Seq<char>, value: Seq<char>)
    ensures
        ({
            let next = with_field(fields, field, value);
            &&& next.message == if field == "message"@ {
                value
            } else {
                fields.message
            }
            &&& next.peer == if field == "peer"@ {
                Some(value)
            } else {
                fields.peer
            }
            &&& next.peer_name == if field == "peer_name"@ {
                Some(value)
            } else {
                fields.peer_name
            }
            &&& next.direction == if field == "direction"@ {
                Some(value)
            } else {
                fields.direction
            }
        }),
{
    reveal_strlit("message");
    reveal_strlit("peer");
    reveal_strlit("peer_name");
    reveal_strlit("direction");
    assert("message"@.len() == 7);
    assert("peer"@.len() == 4);
    assert("peer_name"@[0] != "direction"@[0]);
}

/// A line begins with the time and ends with the whole message and a line feed; between them stand
/// the level and who the line is from.
pub proof fn lines_hold_time_and_message(
    time: Seq<char>,
    level: LogLevel,
    ansi: bool,
    target: Seq<char>,
    fields: FieldsView,
)
    ensures
        ({
            let line = line_text(time, level, ansi, target, fields);
            let end = fields.message + "\n"@;
            &&& line.len() >= time.len() + end.len()
            &&& line.take(time.len() as int) == time
            &&& line.skip(line.len() - end.len()) == end
            &&& text::occurs(level_name(level), line)
            &&& text::occurs(origin_part(target, fields), line)
        }),
{
    let line = line_text(time, level, ansi, target, fields);
    let end = fields.message + "\n"@;
    let name = level_name(level);
    let shown = text::padded_left(name, 5, ' ');
    let origin = origin_part(target, fields);
    assert(line.take(time.len() as int) =~= time);
    assert(line.skip(line.len() - end.len()) =~= end);
    let before = if ansi {
        time + " "@ + level_color(level)
    } else {
        time + " "@
    };
    let after = if ansi {
        "\x1b[0m"@ + " "@ + origin + " "@ + end
    } else {
        " "@ + origin + " "@ + end
    };
    assert(before + shown + after =~= line);
    text::padding_fills_up(name, 5, ' ');
    let gap = shown.take(shown.len() - name.len());
    assert(shown =~= gap + name);
    text::parts_occur(before + gap, name, after);
    assert(before + gap + name + after =~= line);
    text::parts_occur(time + " "@ + level_part(level, ansi) + " "@, origin, " "@ + end);
    assert(time + " "@ + level_part(level, ansi) + " "@ + origin + (" "@ + end) =~= line);
}

/// A line of a peer that logs is from that peer, whatever else is known. One that is told of a peer
/// names it in square brackets, with the direction or a colon behind it. Any other is from the part of
/// the program that wrote it, and all parts of this one go by one name.
pub proof fn lines_tell_who_they_are_from(target: Seq<char>, rest: Seq<char>, fields: FieldsView)
    ensures
        fields.peer matches Some(peer) ==> origin_part(target, fields) == peer,
        fields.peer is None ==> (fields.peer_name matches Some(name) ==> text::occurs(
            "["@ + name + "]"@,
            origin_part(target, fields),
        ) && (fields.direction matches Some(direction) ==> text::occurs(
            direction,
            origin_part(target, fields),
        ))),
        fields.peer is None && fields.peer_name is None ==> origin_part("the_mule"@ + rest, fields)
            == "tm:"@,
        fields.peer is None && fields.peer_name is None && (target.len() < 8 || target.take(8)
            != "the_mule"@) ==> origin_part(target, fields) == target + ":"@,
{
    reveal_strlit("the_mule");
    reveal_strlit("tm");
    reveal_strlit(":");
    reveal_strlit("tm:");
    let own = "the_mule"@ + rest;
    assert(own.take(8) =~= "the_mule"@);
    assert("tm"@ + ":"@ =~= "tm:"@);
    if fields.peer is None {
        if let Some(name) = fields.peer_name {
            let shown = "["@ + name + "]"@;
            let tail = match fields.direction {
                Some(direction) => direction,
                None => ":"@,
            };
            let none = Seq::<char>::empty();
            text::parts_occur(none, shown, tail);
            assert(none + shown + tail =~= origin_part(target, fields));
            text::parts_occur(shown, tail, none);
            assert(shown + tail + none =~= origin_part(target, fields));
        }
    }
}

/// Without colours a level takes five columns, its name at the right. With colours the same stands
/// between a sequence of its own for each level and the one that ends all colours.
pub proof fn levels_are_five_columns_wide(level: LogLevel, other: LogLevel)
    ensures
        ({
            let plain = level_part(level, false);
            let shown = level_part(level, true);
            &&& plain.len() == 5
            &&& text::trimmed(plain) == level_name(level)
            &&& shown.len() == 14
            &&& shown.subrange(5, 10) == plain
            &&& shown[0] == '\x1b'
            &&& shown.skip(10) == "\x1b[0m"@
            &&& level != other ==> shown.take(5) != level_part(other, true).take(5)
        }),
{
    reveal_strlit("ERROR");
    reveal_strlit("WARN");
    reveal_strlit("INFO");
    reveal_strlit("DEBUG");
    reveal_strlit("TRACE");
    reveal_strlit("\x1b[31m");
    reveal_strlit("\x1b[33m");
    reveal_strlit("\x1b[32m");
    reveal_strlit("\x1b[34m");
    reveal_strlit("\x1b[35m");
    reveal_strlit("\x1b[0m");
    let plain = level_part(level, false);
    let shown = level_part(level, true);
    let name = level_name(level);
    let gap = text::repeated(' ', 5 - name.len());
    text::trimming_finds_the_text(gap, name, Seq::empty());
    assert(gap + name + Seq::<char>::empty() =~= plain);
    assert(shown.subrange(5, 10) =~= plain);
    assert(shown.skip(10) =~= "\x1b[0m"@);
    assert(shown.take(5) =~= level_color(level));
    assert(level_part(other, true).take(5) =~= level_color(other));
    if level != other {
        assert(level_color(level)[3] != level_color(other)[3]);
    }
}

} // verus!
