//! The merge policy: what to do with an incoming update, given what is
//! buffered for its session.

use vstd::prelude::*;
use crate::session_buffer::{BufferView, SessionBufferState};
use crate::update::{ChunkKind, Update, UpdateView};

verus! {

/// What the policy decides for one incoming update.
#[derive(Clone, Copy, Debug, PartialEq, Eq, Structural)]
pub enum Decision {
    /// The update is a fragment that joins the session's buffer, which is
    /// created if the session has none.
    AppendToBuffer,
    /// The buffered group is sealed, then the update starts a new buffer.
    SealThenBuffer,
    /// The buffered group, if any, is sealed, then the update is written as
    /// an entry of its own.
    SealThenWriteDirect,
}

/// The decision table. `pending` is the kind of the group buffered for the
/// session, `None` when nothing is buffered.
pub open spec fn decision_for(pending: Option<ChunkKind>, incoming: UpdateView) -> Decision {
    match incoming {
        UpdateView::Event { .. } => Decision::SealThenWriteDirect,
        UpdateView::Chunk { kind, .. } => match pending {
            None => Decision::AppendToBuffer,
            Some(buffered) => if buffered == kind {
                Decision::AppendToBuffer
            } else {
                Decision::SealThenBuffer
            },
        },
    }
}

/// Decides how `incoming` is handled when `pending` is the kind of the group
/// buffered for its session.
pub fn decide_for_kind(pending: Option<ChunkKind>, incoming: &Update) -> (decision: Decision)
    ensures
        decision == decision_for(pending, incoming@),
{
    match incoming {
        Update::Event { .. } => Decision::SealThenWriteDirect,
        Update::Chunk { kind, .. } => match pending {
            None => Decision::AppendToBuffer,
            Some(buffered) => if buffered == *kind {
                Decision::AppendToBuffer
            } else {
                Decision::SealThenBuffer
            },
        },
    }
}

/// The kind pending in a session's buffer, `None` when the session has no
/// buffer or its buffer holds nothing.
pub open spec fn pending_in(current: Option<BufferView>) -> Option<ChunkKind> {
    match current {
        Some(buffer) => buffer.pending_kind,
        None => None,
    }
}

/// Decides how `incoming` is handled when `current` is the buffer of its
/// session, `None` when the session has none.
pub fn decide(current: Option<&SessionBufferState>, incoming: &Update) -> (decision: Decision)
    ensures
        decision == decision_for(
            pending_in(
                match current {
                    Some(buffer) => Some(buffer@),
                    None => None,
                },
            ),
            incoming@,
        ),
{
    let pending = match current {
        Some(buffer) => buffer.pending_kind(),
        None => None,
    };
    decide_for_kind(pending, incoming)
}

} // verus!
