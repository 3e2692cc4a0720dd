//! Session updates and the durable log entries made from them.
//!
//! An update is one protocol event of a conversation. Streamed text arrives
//! as chunk updates, each tagged with the kind of message it belongs to;
//! every other event is atomic and carried as an opaque serialized body.

use vstd::prelude::*;

verus! {

/// The message a streamed text fragment belongs to.
#[derive(Clone, Copy, Debug, PartialEq, Eq, Structural)]
pub enum ChunkKind {
    UserMessage,
    AgentMessage,
    AgentThought,
}

/// The protocol event behind an update that is not a streamed fragment.
#[derive(Clone, Copy, Debug, PartialEq, Eq, Structural)]
pub enum EventKind {
    ToolCall,
    ToolCallUpdate,
    Plan,
    AvailableCommandsUpdate,
    CurrentModeUpdate,
    MessageComplete,
    Other,
}

/// One protocol event of a session.
#[derive(Debug)]
pub enum Update {
    /// A fragment of a longer streamed message.
    Chunk { kind: ChunkKind, text: String },
    /// Any other event; `body` is its serialized form, never inspected here.
    Event { event: EventKind, body: String },
}

/// Mathematical value of an [`Update`].
pub enum UpdateView {
    Chunk { kind: ChunkKind, text: Seq<char> },
    Event { event: EventKind, body: Seq<char> },
}

impl View for Update {
    type V = UpdateView;

    open spec fn view(&self) -> UpdateView {
        match self {
            Update::Chunk { kind, text } => UpdateView::Chunk { kind: *kind, text: text@ },
            Update::Event { event, body } => UpdateView::Event { event: *event, body: body@ },
        }
    }
}

impl UpdateView {
    /// The text an update carries: a chunk's fragment or an event's body.
    pub open spec fn text(self) -> Seq<char> {
        match self {
            UpdateView::Chunk { text, .. } => text,
            UpdateView::Event { body, .. } => body,
        }
    }
}

impl Update {
    /// A chunk update of the given kind.
    pub fn chunk(kind: ChunkKind, text: &str) -> (update: Update)
        ensures
            update@ == (UpdateView::Chunk { kind, text: text@ }),
    {
        Update::Chunk { kind, text: text.to_owned() }
    }

    /// A non-chunk update carrying the serialized event `body`.
    pub fn event(event: EventKind, body: &str) -> (update: Update)
        ensures
            update@ == (UpdateView::Event { event, body: body@ }),
    {
        Update::Event { event, body: body.to_owned() }
    }

    /// Whether this update is a streamed fragment.
    pub fn is_chunk(&self) -> (b: bool)
        ensures
            b == (self@ is Chunk),
    {
        match self {
            Update::Chunk { .. } => true,
            Update::Event { .. } => false,
        }
    }

    /// The kind of a chunk update, `None` for any other update.
    pub fn chunk_kind(&self) -> (kind: Option<ChunkKind>)
        ensures
            kind == match self@ {
                UpdateView::Chunk { kind, .. } => Some(kind),
                UpdateView::Event { .. } => None,
            },
    {
        match self {
            Update::Chunk { kind, .. } => Some(*kind),
            Update::Event { .. } => None,
        }
    }

    /// The text carried: a chunk's fragment or an event's body.
    pub fn text(&self) -> (text: &str)
        ensures
            text@ == self@.text(),
    {
        match self {
            Update::Chunk { text, .. } => text.as_str(),
            Update::Event { body, .. } => body.as_str(),
        }
    }
}

impl Clone for Update {
    fn clone(&self) -> (copy: Update)
        ensures
            copy@ == self@,
    {
        match self {
            Update::Chunk { kind, text } => Update::Chunk { kind: *kind, text: text.clone() },
            Update::Event { event, body } => Update::Event { event: *event, body: body.clone() },
        }
    }
}

/// The durable unit of a session log: an update and the time it was recorded,
/// in milliseconds since the Unix epoch.
#[derive(Debug)]
pub struct MessageLogEntry {
    pub update: Update,
    pub recorded_at: u64,
}

/// Mathematical value of a [`MessageLogEntry`].
pub struct EntryView {
    pub update: UpdateView,
    pub recorded_at: u64,
}

impl View for MessageLogEntry {
    type V = EntryView;

    open spec fn view(&self) -> EntryView {
        EntryView { update: self.update@, recorded_at: self.recorded_at }
    }
}

impl Clone for MessageLogEntry {
    fn clone(&self) -> (copy: MessageLogEntry)
        ensures
            copy@ == self@,
    {
        MessageLogEntry { update: self.update.clone(), recorded_at: self.recorded_at }
    }
}

/// The values of a sequence of log entries, in order.
pub open spec fn entry_views(entries: Seq<MessageLogEntry>) -> Seq<EntryView> {
    entries.map_values(|e: MessageLogEntry| e@)
}

} // verus!
