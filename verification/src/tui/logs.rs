//! Capture of log events for the activity panel: rendering of an event's
//! fields into a line, and a bounded buffer of the most recent lines.

use vstd::prelude::*;
use std::collections::VecDeque;
use std::sync::Arc;
use crate::text::{chars_of, string_of_range};

verus! {

#[verifier::external_type_specification]
#[verifier::external_body]
pub struct ExLevel(tracing::Level);

/// `Clone` of `tracing::Level`, which derives `Copy` and `Clone`.
/// Claims: the clone equals the original.
pub assume_specification[ <tracing::Level as Clone>::clone ](level: &tracing::Level) -> (res: tracing::Level)
    ensures
        res == *level,
;

#[verifier::external_type_specification]
#[verifier::external_body]
#[verifier::reject_recursive_types(T)]
pub struct ExMutex<T: ?Sized>(std::sync::Mutex<T>);

/// A single captured log event, ready for display
#[derive(Debug, Clone)]
pub struct LogLine {
    pub time: String,
    pub level: tracing::Level,
    /// Message followed by ` key=value` pairs
    pub body: String,
    /// Set when the event carries a `domain` field with message "blocked"
    pub blocked_domain: Option<String>,
}

/// The shared buffer of captured lines.
pub type LogBuffer = Arc<std::sync::Mutex<VecDeque<LogLine>>>;

/// Captures formatted events into a ring buffer so the dashboard can render
/// them (stdout is owned by the terminal UI).
pub struct TuiLogLayer {
    buffer: LogBuffer,
    capacity: usize,
}

impl TuiLogLayer {
    /// The buffer that this layer fills.
    pub closed spec fn buffer_spec(&self) -> LogBuffer {
        self.buffer
    }

    /// How many lines the buffer keeps.
    pub closed spec fn capacity_spec(&self) -> usize {
        self.capacity
    }

    pub fn new(buffer: LogBuffer, capacity: usize) -> (layer: Self)
        ensures
            layer.buffer_spec() == buffer,
            layer.capacity_spec() == capacity,
    {
        Self { buffer, capacity }
    }

    /// The buffer that this layer fills.
    pub fn buffer(&self) -> (b: &LogBuffer)
        ensures
            *b == self.buffer_spec(),
    {
        &self.buffer
    }

    /// How many lines the buffer keeps.
    pub fn capacity(&self) -> (c: usize)
        ensures
            c == self.capacity_spec(),
    {
        self.capacity
    }
}

/// The buffer after one line arrives: when it already holds `capacity`
/// lines or more, its oldest line leaves first.
pub open spec fn after_push(lines: Seq<LogLine>, capacity: usize, line: LogLine) -> Seq<LogLine> {
    if lines.len() >= capacity && lines.len() > 0 {
        lines.drop_first().push(line)
    } else {
        lines.push(line)
    }
}

/// Appends `line` to the buffer, first dropping the oldest line when the
/// buffer is full.
pub fn push_bounded(buffer: &mut VecDeque<LogLine>, capacity: usize, line: LogLine)
    ensures
        final(buffer)@ == after_push(old(buffer)@, capacity, line),
        old(buffer)@.len() >= capacity && old(buffer)@.len() > 0 ==> final(buffer)@.len() == old(
            buffer,
        )@.len(),
        old(buffer)@.len() >= capacity && old(buffer)@.len() > 0 ==> final(buffer)@ == old(
            buffer,
        )@.subrange(1, old(buffer)@.len() as int).push(line),
        old(buffer)@.len() < capacity || old(buffer)@.len() == 0 ==> final(buffer)@ == old(
            buffer,
        )@.push(line),
{
    if buffer.len() >= capacity {
        buffer.pop_front();
        proof {
            if old(buffer)@.len() > 0 {
                assert(old(buffer)@.subrange(1, old(buffer)@.len() as int) =~= old(buffer)@.drop_first());
            }
        }
    }
    buffer.push_back(line);
}

/// A buffer that is filled only by `push_bounded` never holds more than its
/// capacity (one line, for capacity 0), and always holds the most recent
/// lines in the order in which they came.
pub proof fn lemma_push_bounded(lines: Seq<LogLine>, capacity: usize, line: LogLine)
    requires
        lines.len() <= capacity || lines.len() <= 1,
    ensures
        after_push(lines, capacity, line).len() <= capacity || after_push(
            lines,
            capacity,
            line,
        ).len() <= 1,
        after_push(lines, capacity, line).last() == line,
        after_push(lines, capacity, line) == lines.push(line).subrange(
            lines.len() + 1 - after_push(lines, capacity, line).len(),
            lines.len() + 1int,
        ),
{
    if lines.len() >= capacity && lines.len() > 0 {
        assert(lines.drop_first().push(line) =~= lines.push(line).subrange(1, lines.len() + 1int));
    } else {
        assert(lines.push(line) =~= lines.push(line).subrange(0, lines.len() + 1int));
    }
}

/// When the buffer is full (it holds at least `capacity` lines, and at
/// least one), a new line pushes out exactly the oldest one: the length
/// stays the same, the other lines stay in order, and the new line comes
/// last. Below capacity, the new line is only added.
pub proof fn lemma_full_buffer_drops_oldest(lines: Seq<LogLine>, capacity: usize, line: LogLine)
    ensures
        lines.len() >= capacity && lines.len() > 0 ==> after_push(lines, capacity, line).len()
            == lines.len(),
        lines.len() >= capacity && lines.len() > 0 ==> after_push(lines, capacity, line)
            == lines.subrange(1, lines.len() as int).push(line),
        lines.len() < capacity || lines.len() == 0 ==> after_push(lines, capacity, line)
            == lines.push(line),
{
    if lines.len() > 0 {
        assert(lines.drop_first() =~= lines.subrange(1, lines.len() as int));
    }
}

/// `s` without one pair of surrounding double quotes, where it has them.
pub open spec fn unquote(s: Seq<char>) -> Seq<char> {
    if s.len() >= 2 && s[0] == '"' && s.last() == '"' {
        s.subrange(1, s.len() - 1)
    } else {
        s
    }
}

/// The `Debug` rendering of a field value without the quotes that `Debug`
/// puts around strings.
pub fn strip_debug_quotes(rendered: &str) -> (res: String)
    ensures
        res@ == unquote(rendered@),
{
    let v = chars_of(rendered);
    let n = v.len();
    if n >= 2 && v[0] == '"' && v[n - 1] == '"' {
        string_of_range(&v, 1, n - 1)
    } else {
        proof {
            assert(v@.subrange(0, n as int) =~= v@);
        }
        string_of_range(&v, 0, n)
    }
}

/// Taking off the quotes undoes putting them on.
pub proof fn lemma_unquote_quoted(s: Seq<char>)
    ensures
        unquote(seq!['"'] + s + seq!['"']) == s,
{
    let q = seq!['"'] + s + seq!['"'];
    assert(q.subrange(1, q.len() - 1) =~= s);
}

/// Collects the `message` field and renders the rest as ` key=value` pairs
pub struct LineVisitor {
    pub message: String,
    pub fields: String,
    pub domain: Option<String>,
}

impl LineVisitor {
    /// A visitor that has recorded nothing.
    pub fn new() -> (v: Self)
        ensures
            v.message@ == Seq::<char>::empty(),
            v.fields@ == Seq::<char>::empty(),
            v.domain is None,
    {
        LineVisitor { message: String::new(), fields: String::new(), domain: None }
    }

    /// Records one field of an event: the `message` field becomes the
    /// message, any other is appended as ` name=value`, and a `domain` field
    /// is kept aside as well.
    pub fn record(&mut self, name: &str, value: String)
        ensures
            name@ == "message"@ ==> final(self).message@ == value@,
            name@ == "message"@ ==> final(self).fields@ == old(self).fields@,
            name@ != "message"@ ==> final(self).message@ == old(self).message@,
            name@ != "message"@ ==> final(self).fields@ == old(self).fields@ + " "@ + name@ + "="@ + value@,
            name@ == "domain"@ ==> final(self).domain == Some(value),
            name@ != "domain"@ ==> final(self).domain == old(self).domain,
    {
        proof {
            reveal_strlit("message");
            reveal_strlit("domain");
            assert("message"@[0] != "domain"@[0]);
        }
        let is_message = name.to_owned() == "message".to_owned();
        if is_message {
            self.message = value;
        } else {
            if name.to_owned() == "domain".to_owned() {
                self.domain = Some(value.clone());
            }
            self.fields.append(" ");
            self.fields.append(name);
            self.fields.append("=");
            self.fields.append(value.as_str());
        }
    }

    /// The line that the recorded fields make, at `time` and `level`.
    pub fn assemble(self, time: String, level: tracing::Level) -> (line: LogLine)
        ensures
            line.time == time,
            line.level == level,
            line.body@ == self.message@ + self.fields@,
            line.blocked_domain == (if self.message@ == "blocked"@ {
                self.domain
            } else {
                None
            }),
    {
        let blocked_domain = if self.message == String::from_str("blocked") {
            self.domain
        } else {
            None
        };
        let mut body = self.message;
        body.append(self.fields.as_str());
        LogLine { time, level, body, blocked_domain }
    }
}

} // verus!
