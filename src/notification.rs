use vstd::prelude::*;

use crate::level::Level;

verus! {

/// A span came into existence. `id` is unique among the spans alive at once.
pub struct NewSpan {
    pub id: u64,
    pub name: String,
    pub target: String,
    pub level: Level,
    pub parent: Option<u64>,
}

impl NewSpan {
    pub fn new(id: u64, name: String, target: String, level: Level, parent: Option<u64>) -> (r: Self)
        ensures
            r.id == id,
            r.name == name,
            r.target == target,
            r.level == level,
            r.parent == parent,
    {
        NewSpan { id, name, target, level, parent }
    }
}

/// A span was entered at timer reading `time`.
#[derive(Clone, Copy, Debug, PartialEq, Eq, Structural)]
pub struct EnterSpan {
    pub id: u64,
    pub time: u64,
}

impl EnterSpan {
    pub fn new(id: u64, time: u64) -> (r: Self)
        ensures
            r.id == id,
            r.time == time,
    {
        EnterSpan { id, time }
    }
}

/// A span was exited at timer reading `time`.
#[derive(Clone, Copy, Debug, PartialEq, Eq, Structural)]
pub struct ExitSpan {
    pub id: u64,
    pub time: u64,
}

impl ExitSpan {
    pub fn new(id: u64, time: u64) -> (r: Self)
        ensures
            r.id == id,
            r.time == time,
    {
        ExitSpan { id, time }
    }
}

/// A span was closed: it will never be entered again.
#[derive(Clone, Copy, Debug, PartialEq, Eq, Structural)]
pub struct ClosedSpan {
    pub id: u64,
}

impl ClosedSpan {
    pub fn new(id: u64) -> (r: Self)
        ensures
            r.id == id,
    {
        ClosedSpan { id }
    }
}

/// A point-in-time record with a message, in the form it is retained.
pub struct CollectedEvent {
    pub target: String,
    pub level: Level,
    pub message: String,
    pub time: u64,
}

impl CollectedEvent {
    /// The retained form of an event, or `None` for an event that carries no
    /// message field: such events are skipped.
    pub fn new(target: String, level: Level, message: Option<String>, time: u64) -> (r: Option<Self>)
        ensures
            r is None <==> message is None,
            r matches Some(e) ==> e.target == target && e.level == level && e.time == time
                && Some(e.message) == message,
    {
        match message {
            Some(message) => Some(CollectedEvent { target, level, message, time }),
            None => None,
        }
    }

    pub fn copy(&self) -> (r: Self)
        ensures
            r == *self,
    {
        CollectedEvent {
            target: self.target.clone(),
            level: self.level,
            message: self.message.clone(),
            time: self.time,
        }
    }
}

/// One lifecycle notification, as it travels from a producer to the consumer.
pub enum CollectedTracings {
    Event(CollectedEvent),
    NewSpan(NewSpan),
    EnterSpan(EnterSpan),
    ExitSpan(ExitSpan),
    ClosedSpan(ClosedSpan),
}

/// Collects the field named `message` out of the fields of one event.
pub struct MessageVisitor(pub Option<String>);

/// The name of the field whose value becomes an event's message.
pub open spec fn is_message_field(name: Seq<char>) -> bool {
    name == "message"@
}

impl MessageVisitor {
    pub fn new() -> (r: Self)
        ensures
            r.0 is None,
    {
        MessageVisitor(None)
    }

    /// Whether a field of this name would be kept, so that only it need be rendered.
    pub fn wants(field: &str) -> (r: bool)
        ensures
            r == is_message_field(field@),
    {
        str_eq(field, "message")
    }

    /// Offers one field, already rendered to text; only the `message` field is kept.
    pub fn record_debug(&mut self, field: &str, rendered: String)
        ensures
            is_message_field(field@) ==> final(self).0 == Some(rendered),
            !is_message_field(field@) ==> final(self).0 == old(self).0,
    {
        if Self::wants(field) {
            self.0 = Some(rendered);
        }
    }

    pub fn into_message(self) -> (r: Option<String>)
        ensures
            r == self.0,
    {
        self.0
    }
}

/// Equality of two strings by their characters.
fn str_eq(a: &str, b: &str) -> (r: bool)
    ensures
        r == (a@ == b@),
{
    let a = a.to_owned();
    let b = b.to_owned();
    a.eq(&b)
}

} // verus!
