//! The per-session accumulator of one in-flight group of fragments.

use vstd::prelude::*;
use vstd::string::StringExecFns;
use crate::flush_scheduler::TimerTicket;
use crate::update::{ChunkKind, EntryView, MessageLogEntry, Update, UpdateView};

verus! {

/// What is buffered for one session: the kind of the group being merged, its
/// text so far, and the ticket of the inactivity timer armed for it.
#[derive(Debug)]
pub struct SessionBufferState {
    session_id: String,
    pending_kind: Option<ChunkKind>,
    accumulated_text: String,
    timer_generation: u64,
    timer_deadline: u64,
}

/// Mathematical value of a [`SessionBufferState`].
pub struct BufferView {
    pub session_id: Seq<char>,
    pub pending_kind: Option<ChunkKind>,
    pub accumulated_text: Seq<char>,
    pub timer: TimerTicket,
}

impl BufferView {
    /// Nothing is accumulated unless a group is pending.
    pub open spec fn wf(self) -> bool {
        self.pending_kind is None ==> self.accumulated_text.len() == 0
    }

    /// Whether a fragment of `kind` may join the buffer.
    pub open spec fn accepts(self, kind: ChunkKind) -> bool {
        self.pending_kind is None || self.pending_kind == Some(kind)
    }

    /// The buffer after a fragment of `kind` joined it.
    pub open spec fn with_fragment(self, kind: ChunkKind, text: Seq<char>) -> BufferView {
        BufferView {
            pending_kind: Some(kind),
            accumulated_text: self.accumulated_text + text,
            ..self
        }
    }

    /// The buffer holding `ticket` as its timer.
    pub open spec fn with_timer(self, ticket: TimerTicket) -> BufferView {
        BufferView { timer: ticket, ..self }
    }

    /// The entry the pending group becomes when it is sealed at `now`.
    pub open spec fn sealed_at(self, now: u64) -> Option<EntryView> {
        match self.pending_kind {
            Some(kind) => Some(
                EntryView {
                    update: UpdateView::Chunk { kind, text: self.accumulated_text },
                    recorded_at: now,
                },
            ),
            None => None,
        }
    }
}

/// The buffer a session starts with: nothing pending, no timer armed.
pub open spec fn empty_buffer(session_id: Seq<char>) -> BufferView {
    BufferView {
        session_id,
        pending_kind: None,
        accumulated_text: Seq::empty(),
        timer: TimerTicket { generation: 0, deadline: 0 },
    }
}

impl View for SessionBufferState {
    type V = BufferView;

    closed spec fn view(&self) -> BufferView {
        BufferView {
            session_id: self.session_id@,
            pending_kind: self.pending_kind,
            accumulated_text: self.accumulated_text@,
            timer: TimerTicket { generation: self.timer_generation, deadline: self.timer_deadline },
        }
    }
}

impl SessionBufferState {
    /// An empty buffer for `session_id`.
    pub fn new(session_id: &str) -> (buffer: SessionBufferState)
        ensures
            buffer@ == empty_buffer(session_id@),
            buffer@.wf(),
    {
        SessionBufferState {
            session_id: session_id.to_owned(),
            pending_kind: None,
            accumulated_text: String::new(),
            timer_generation: 0,
            timer_deadline: 0,
        }
    }

    /// The session this buffer belongs to.
    pub fn session_id(&self) -> (id: &str)
        ensures
            id@ == self@.session_id,
    {
        self.session_id.as_str()
    }

    /// The kind of the pending group, `None` when nothing is buffered.
    pub fn pending_kind(&self) -> (kind: Option<ChunkKind>)
        ensures
            kind == self@.pending_kind,
    {
        self.pending_kind
    }

    /// The text accumulated so far.
    pub fn accumulated_text(&self) -> (text: &str)
        ensures
            text@ == self@.accumulated_text,
    {
        self.accumulated_text.as_str()
    }

    /// The generation of the timer armed for this buffer.
    pub fn timer_generation(&self) -> (generation: u64)
        ensures
            generation == self@.timer.generation,
    {
        self.timer_generation
    }

    /// The ticket of the timer armed for this buffer.
    pub fn timer(&self) -> (ticket: TimerTicket)
        ensures
            ticket == self@.timer,
    {
        TimerTicket { generation: self.timer_generation, deadline: self.timer_deadline }
    }

    /// Appends a fragment of `kind` if the buffer accepts it: the text is
    /// concatenated as it is, with nothing put between fragments. A fragment
    /// of another kind than the pending one is refused and changes nothing.
    pub fn append(&mut self, kind: ChunkKind, text: &str) -> (accepted: bool)
        ensures
            accepted == old(self)@.accepts(kind),
            accepted ==> final(self)@ == old(self)@.with_fragment(kind, text@),
            !accepted ==> final(self)@ == old(self)@,
            old(self)@.wf() ==> final(self)@.wf(),
    {
        let accepted = match self.pending_kind {
            None => true,
            Some(pending) => pending == kind,
        };
        if accepted {
            self.pending_kind = Some(kind);
            self.accumulated_text.append(text);
        }
        accepted
    }

    /// Records `ticket` as the timer armed for this buffer.
    pub fn set_timer(&mut self, ticket: TimerTicket)
        ensures
            final(self)@ == old(self)@.with_timer(ticket),
    {
        self.timer_generation = ticket.generation;
        self.timer_deadline = ticket.deadline;
    }

    /// Seals the buffer at `now`: the pending group becomes one log entry
    /// holding the whole accumulated text. `None` when nothing is pending.
    pub fn seal(self, now: u64) -> (entry: Option<MessageLogEntry>)
        ensures
            match entry {
                Some(e) => self@.sealed_at(now) == Some(e@),
                None => self@.sealed_at(now) is None,
            },
    {
        match self.pending_kind {
            Some(kind) => Some(
                MessageLogEntry {
                    update: Update::Chunk { kind, text: self.accumulated_text },
                    recorded_at: now,
                },
            ),
            None => None,
        }
    }
}

} // verus!
