//! Laws of the persistence service, proved about its model.
//!
//! Each law speaks of the functions of [`ServiceView`] that the contracts of
//! the executable operations are written with, so it holds of every run of
//! the service. Where a law promises that content reaches the log, it asks
//! that the store accept the entry: a record over the store's limit is
//! refused, and the service then reports an error instead.

use vstd::prelude::*;
use vstd::utf8::encode_utf8;
use crate::message_store::{
    all_fit,
    entries_from,
    fits_record,
    lemma_encode_utf8_concat,
    DEFAULT_RECORD_LIMIT,
    RECORD_HEADER_LEN,
};
use crate::record_codec::{
    encode_frame,
    encode_log,
    law_stored_log_is_joined,
    law_stored_log_round_trip,
    law_torn_write_is_dropped,
};
use crate::service_model::{PersistError, ServiceView, TimerOutcome};
use crate::session_buffer::BufferView;
use crate::update::{ChunkKind, EntryView, EventKind, UpdateView};

verus! {

/// The entry that holds the merged `text` of fragments of `kind`, recorded
/// at `now`.
pub open spec fn merged_entry(kind: ChunkKind, text: Seq<char>, now: u64) -> EntryView {
    EntryView { update: UpdateView::Chunk { kind, text }, recorded_at: now }
}

/// The state after fragments of one kind were saved for one session, one
/// after the other, the i-th holding `texts[i]` and saved at `times[i]`.
pub open spec fn after_chunks(
    state: ServiceView,
    session_id: Seq<char>,
    kind: ChunkKind,
    texts: Seq<Seq<char>>,
    times: Seq<u64>,
) -> ServiceView
    decreases texts.len(),
{
    if texts.len() == 0 {
        state
    } else {
        after_chunks(state, session_id, kind, texts.drop_last(), times.drop_last()).after_save(
            session_id,
            UpdateView::Chunk { kind, text: texts.last() },
            times.last(),
        )
    }
}

/// Whether every save of such a run of fragments returned `Ok`.
pub open spec fn chunks_all_saved(
    state: ServiceView,
    session_id: Seq<char>,
    kind: ChunkKind,
    texts: Seq<Seq<char>>,
    times: Seq<u64>,
) -> bool
    decreases texts.len(),
{
    if texts.len() == 0 {
        true
    } else {
        &&& chunks_all_saved(state, session_id, kind, texts.drop_last(), times.drop_last())
        &&& after_chunks(
            state,
            session_id,
            kind,
            texts.drop_last(),
            times.drop_last(),
        ).save_result(session_id, UpdateView::Chunk { kind, text: texts.last() }, times.last())
            == Ok::<(), PersistError>(())
    }
}

/// A run of fragments of one kind, saved for a session that had no buffer,
/// leaves the logs as they were and the session with one buffer that holds
/// the fragments' texts joined in order of arrival.
pub proof fn lemma_chunks_accumulate(
    state: ServiceView,
    session_id: Seq<char>,
    kind: ChunkKind,
    texts: Seq<Seq<char>>,
    times: Seq<u64>,
)
    requires
        state.wf(),
        session_id.len() > 0,
        texts.len() > 0,
        times.len() == texts.len(),
        !state.buffers.contains_key(session_id),
    ensures
        ({
            let end = after_chunks(state, session_id, kind, texts, times);
            &&& end.wf()
            &&& end.logs == state.logs
            &&& end.record_limit == state.record_limit
            &&& end.timeout_ms == state.timeout_ms
            &&& end.buffers.contains_key(session_id)
            &&& end.buffers[session_id].pending_kind == Some(kind)
            &&& end.buffers[session_id].accumulated_text == texts.flatten()
            &&& end.buffers.remove(session_id) == state.buffers
            &&& chunks_all_saved(state, session_id, kind, texts, times)
        }),
    decreases texts.len(),
{
    let before = after_chunks(state, session_id, kind, texts.drop_last(), times.drop_last());
    let end = after_chunks(state, session_id, kind, texts, times);
    assert(texts == texts.drop_last().push(texts.last()));
    texts.drop_last().lemma_flatten_push(texts.last());
    assert(end == before.after_save(
        session_id,
        UpdateView::Chunk { kind, text: texts.last() },
        times.last(),
    ));
    if texts.len() == 1 {
        assert(before == state);
        assert(chunks_all_saved(state, session_id, kind, texts.drop_last(), times.drop_last()));
        assert(texts.drop_last().flatten() =~= Seq::<char>::empty());
        assert(end.buffers[session_id].accumulated_text =~= texts.flatten());
        assert(end.buffers.remove(session_id) =~= state.buffers);
    } else {
        lemma_chunks_accumulate(state, session_id, kind, texts.drop_last(), times.drop_last());
        assert(end.buffers[session_id].accumulated_text =~= texts.flatten());
        assert(end.buffers.remove(session_id) =~= before.buffers.remove(session_id));
    }
}

/// Merge correctness: after any number of consecutive fragments of one
/// kind for one session and a flush of that session, the session's log has
/// gained exactly one entry, whose text is the fragments' texts joined in
/// order of arrival, with nothing put between them. Every call succeeded and
/// no buffer is left.
pub proof fn law_merge_correctness(
    state: ServiceView,
    session_id: Seq<char>,
    kind: ChunkKind,
    texts: Seq<Seq<char>>,
    times: Seq<u64>,
    flushed_at: u64,
)
    requires
        state.wf(),
        session_id.len() > 0,
        texts.len() > 0,
        times.len() == texts.len(),
        !state.buffers.contains_key(session_id),
        fits_record(merged_entry(kind, texts.flatten(), flushed_at), state.record_limit),
    ensures
        ({
            let merged = after_chunks(state, session_id, kind, texts, times);
            let end = merged.after_flush_session(session_id, flushed_at);
            &&& chunks_all_saved(state, session_id, kind, texts, times)
            &&& merged.flush_result(session_id, flushed_at) == Ok::<(), PersistError>(())
            &&& end.logs[session_id] == state.logs[session_id].push(
                merged_entry(kind, texts.flatten(), flushed_at),
            )
            &&& end.logs == state.logs.insert(session_id, end.logs[session_id])
            &&& end.buffers == state.buffers
        }),
{
    lemma_chunks_accumulate(state, session_id, kind, texts, times);
}

/// Merge correctness, read back: on a service that has written nothing yet
/// for the session, the log after the fragments and the flush is the one
/// merged entry.
pub proof fn law_merge_yields_one_entry(
    state: ServiceView,
    session_id: Seq<char>,
    kind: ChunkKind,
    texts: Seq<Seq<char>>,
    times: Seq<u64>,
    flushed_at: u64,
)
    requires
        state.wf(),
        session_id.len() > 0,
        texts.len() > 0,
        times.len() == texts.len(),
        !state.buffers.contains_key(session_id),
        state.logs[session_id].len() == 0,
        fits_record(merged_entry(kind, texts.flatten(), flushed_at), state.record_limit),
    ensures
        after_chunks(state, session_id, kind, texts, times).after_flush_session(
            session_id,
            flushed_at,
        ).load_result(session_id) == Ok::<Seq<EntryView>, PersistError>(
            seq![merged_entry(kind, texts.flatten(), flushed_at)],
        ),
{
    law_merge_correctness(state, session_id, kind, texts, times, flushed_at);
    assert(state.logs[session_id].push(merged_entry(kind, texts.flatten(), flushed_at)) =~= seq![
        merged_entry(kind, texts.flatten(), flushed_at),
    ]);
}

/// A change of kind seals: a fragment of another kind than the buffered
/// one puts the buffered group into the log as one entry, and starts a new
/// buffer that holds the fragment's text unmodified. A flush then writes
/// that text as the next entry.
pub proof fn law_kind_change_seals(
    state: ServiceView,
    session_id: Seq<char>,
    kind: ChunkKind,
    text: Seq<char>,
    now: u64,
    flushed_at: u64,
)
    requires
        state.wf(),
        state.buffers.contains_key(session_id),
        state.buffers[session_id].pending_kind != Some(kind),
        !state.seal_fails(session_id, now),
        fits_record(merged_entry(kind, text, flushed_at), state.record_limit),
    ensures
        ({
            let buffered = state.buffers[session_id];
            let next = state.after_save(session_id, UpdateView::Chunk { kind, text }, now);
            let end = next.after_flush_session(session_id, flushed_at);
            &&& state.save_result(session_id, UpdateView::Chunk { kind, text }, now) == Ok::<
                (),
                PersistError,
            >(())
            &&& next.wf()
            &&& next.logs[session_id] == state.logs[session_id].push(
                merged_entry(buffered.pending_kind->0, buffered.accumulated_text, now),
            )
            &&& next.buffers.contains_key(session_id)
            &&& next.buffers[session_id].pending_kind == Some(kind)
            &&& next.buffers[session_id].accumulated_text == text
            &&& end.logs[session_id] == state.logs[session_id].push(
                merged_entry(buffered.pending_kind->0, buffered.accumulated_text, now),
            ).push(merged_entry(kind, text, flushed_at))
            &&& !end.buffers.contains_key(session_id)
        }),
{
    let next = state.after_save(session_id, UpdateView::Chunk { kind, text }, now);
    assert(next.buffers[session_id].accumulated_text =~= text);
}

/// An update that is not a fragment takes effect at once: the buffered
/// group and the update are the next two entries of the log when the call
/// returns, whatever the timer's deadline, and no buffer is left.
pub proof fn law_non_chunk_immediacy(
    state: ServiceView,
    session_id: Seq<char>,
    event: EventKind,
    body: Seq<char>,
    now: u64,
)
    requires
        state.wf(),
        state.buffers.contains_key(session_id),
        !state.seal_fails(session_id, now),
        fits_record(
            EntryView { update: UpdateView::Event { event, body }, recorded_at: now },
            state.record_limit,
        ),
    ensures
        ({
            let buffered = state.buffers[session_id];
            let update = UpdateView::Event { event, body };
            let end = state.after_save(session_id, update, now);
            &&& state.save_result(session_id, update, now) == Ok::<(), PersistError>(())
            &&& end.logs[session_id] == state.logs[session_id].push(
                merged_entry(buffered.pending_kind->0, buffered.accumulated_text, now),
            ).push(EntryView { update, recorded_at: now })
            &&& !end.buffers.contains_key(session_id)
        }),
{
}

/// An update that is not a fragment is never buffered: with or without a
/// buffer before it, the session has none after it.
pub proof fn law_non_chunk_never_buffered(
    state: ServiceView,
    session_id: Seq<char>,
    event: EventKind,
    body: Seq<char>,
    now: u64,
)
    requires
        state.wf(),
        session_id.len() > 0,
    ensures
        !state.after_save(session_id, UpdateView::Event { event, body }, now).buffers.contains_key(
            session_id,
        ),
{
}

/// An explicit flush does not wait for the timer: however far the buffer's
/// deadline lies beyond `now`, the flush seals the buffer into one entry and
/// leaves no buffer, and with it no timer that could still take effect.
pub proof fn law_flush_bypasses_timeout(state: ServiceView, session_id: Seq<char>, now: u64)
    requires
        state.wf(),
        state.buffers.contains_key(session_id),
        !state.seal_fails(session_id, now),
    ensures
        ({
            let buffered = state.buffers[session_id];
            let end = state.after_flush_session(session_id, now);
            &&& state.flush_result(session_id, now) == Ok::<(), PersistError>(())
            &&& end.logs[session_id] == state.logs[session_id].push(
                merged_entry(buffered.pending_kind->0, buffered.accumulated_text, now),
            )
            &&& !end.buffers.contains_key(session_id)
            &&& forall|generation: u64, later: u64|
                end.timer_outcome(session_id, generation, later) == TimerOutcome::Ignored
                    && #[trigger] end.after_timer(session_id, generation, later) == end
        }),
{
}

/// A flush of all sessions keeps them apart: every session that had a
/// buffer gains exactly what flushing it alone would have written, a session
/// without a buffer keeps its log, and no buffer is left.
pub proof fn law_flush_all_isolates_sessions(state: ServiceView, now: u64)
    requires
        state.wf(),
    ensures
        ({
            let end = state.after_flush(now, false);
            &&& end.wf()
            &&& end.buffers == Map::<Seq<char>, BufferView>::empty()
            &&& forall|session_id: Seq<char>| #[trigger]
                end.logs[session_id] == state.after_flush_session(session_id, now).logs[session_id]
            &&& forall|session_id: Seq<char>|
                state.buffers.contains_key(session_id) && !state.seal_fails(session_id, now)
                    ==> #[trigger] end.logs[session_id] == state.logs[session_id].push(
                    merged_entry(
                        state.buffers[session_id].pending_kind->0,
                        state.buffers[session_id].accumulated_text,
                        now,
                    ),
                )
            &&& forall|session_id: Seq<char>|
                !state.buffers.contains_key(session_id) ==> #[trigger] end.logs[session_id]
                    == state.logs[session_id]
        }),
{
    let end = state.after_flush(now, false);
    assert(end.buffers =~= Map::<Seq<char>, BufferView>::empty());
}

/// Saving an update for one session leaves every other session as it was:
/// its log and its buffer.
pub proof fn law_save_touches_one_session(
    state: ServiceView,
    session_id: Seq<char>,
    update: UpdateView,
    now: u64,
    other: Seq<char>,
)
    requires
        state.wf(),
        other != session_id,
    ensures
        ({
            let end = state.after_save(session_id, update, now);
            &&& end.wf()
            &&& end.logs[other] == state.logs[other]
            &&& end.buffers.contains_key(other) == state.buffers.contains_key(other)
            &&& end.buffers.contains_key(other) ==> end.buffers[other] == state.buffers[other]
        }),
{
}

/// Reading is idempotent: two reads of a session with no write between
/// them return the same entries, because a read is a function of the state
/// and changes nothing.
pub proof fn law_idempotent_read(
    state: ServiceView,
    session_id: Seq<char>,
    first: Result<Seq<EntryView>, PersistError>,
    second: Result<Seq<EntryView>, PersistError>,
)
    requires
        first == state.load_result(session_id),
        second == state.load_result(session_id),
    ensures
        first == second,
{
}

/// What is buffered is not read: saving a fragment that joins a buffer
/// leaves what a read of any session returns unchanged.
pub proof fn law_buffered_content_is_not_read(
    state: ServiceView,
    session_id: Seq<char>,
    kind: ChunkKind,
    text: Seq<char>,
    now: u64,
    read: Seq<char>,
)
    requires
        state.wf(),
        state.pending(session_id) is None || state.pending(session_id) == Some(kind),
    ensures
        state.after_save(session_id, UpdateView::Chunk { kind, text }, now).load_result(read)
            == state.load_result(read),
{
}

/// A timer outlived by its buffer is harmless: once a further fragment has
/// joined the buffer, the timer armed before it is ignored when it fires.
pub proof fn law_stale_timer_is_ignored(
    state: ServiceView,
    session_id: Seq<char>,
    kind: ChunkKind,
    text: Seq<char>,
    now: u64,
    fired_at: u64,
)
    requires
        state.wf(),
        state.buffers.contains_key(session_id),
        state.buffers[session_id].pending_kind == Some(kind),
        state.buffers[session_id].timer.generation == state.generation,
    ensures
        ({
            let stale = state.buffers[session_id].timer.generation;
            let next = state.after_save(session_id, UpdateView::Chunk { kind, text }, now);
            &&& next.timer_outcome(session_id, stale, fired_at) == TimerOutcome::Ignored
            &&& next.after_timer(session_id, stale, fired_at) == next
            &&& next.buffers[session_id].timer.generation == next.generation
        }),
{
}

/// One step of a stream of fragments of one kind for one session: a
/// fragment that arrives, or a seal of the session's buffer, whether by an
/// explicit flush, by a flush of all sessions or by the buffer's own timer.
pub enum StreamStep {
    Fragment { text: Seq<char>, at: u64 },
    Seal { at: u64 },
}

/// The state after one step of a stream.
pub open spec fn after_step(
    state: ServiceView,
    session_id: Seq<char>,
    kind: ChunkKind,
    step: StreamStep,
) -> ServiceView {
    match step {
        StreamStep::Fragment { text, at } => state.after_save(
            session_id,
            UpdateView::Chunk { kind, text },
            at,
        ),
        StreamStep::Seal { at } => state.sealed(session_id, at),
    }
}

/// The state after the steps of a stream, in order.
pub open spec fn after_steps(
    state: ServiceView,
    session_id: Seq<char>,
    kind: ChunkKind,
    steps: Seq<StreamStep>,
) -> ServiceView
    decreases steps.len(),
{
    if steps.len() == 0 {
        state
    } else {
        after_step(
            after_steps(state, session_id, kind, steps.drop_last()),
            session_id,
            kind,
            steps.last(),
        )
    }
}

/// The texts of the fragments of a stream, in order of arrival.
pub open spec fn fragments_of(steps: Seq<StreamStep>) -> Seq<Seq<char>>
    decreases steps.len(),
{
    if steps.len() == 0 {
        Seq::empty()
    } else {
        match steps.last() {
            StreamStep::Fragment { text, .. } => fragments_of(steps.drop_last()).push(text),
            StreamStep::Seal { .. } => fragments_of(steps.drop_last()),
        }
    }
}

/// The number of seals in a stream.
pub open spec fn seals_in(steps: Seq<StreamStep>) -> nat
    decreases steps.len(),
{
    if steps.len() == 0 {
        0
    } else {
        match steps.last() {
            StreamStep::Fragment { .. } => seals_in(steps.drop_last()),
            StreamStep::Seal { .. } => seals_in(steps.drop_last()) + 1,
        }
    }
}

/// The texts of the entries of a log, joined in order.
pub open spec fn log_text(log: Seq<EntryView>) -> Seq<char> {
    log.map_values(|entry: EntryView| entry.update.text()).flatten()
}

/// The text buffered for a session, empty when it has no buffer.
pub open spec fn buffered_text(state: ServiceView, session_id: Seq<char>) -> Seq<char> {
    if state.buffers.contains_key(session_id) {
        state.buffers[session_id].accumulated_text
    } else {
        Seq::empty()
    }
}

/// Whether `log` is `base` followed by entries that are all groups of `kind`.
pub open spec fn extends_with_kind(log: Seq<EntryView>, base: Seq<EntryView>, kind: ChunkKind) -> bool {
    &&& base.len() <= log.len()
    &&& log.subrange(0, base.len() as int) == base
    &&& forall|i: int|
        base.len() <= i < log.len() ==> (#[trigger] log[i]).update is Chunk && log[i].update->Chunk_kind
            == kind
}

proof fn lemma_log_text_push(log: Seq<EntryView>, entry: EntryView)
    ensures
        log_text(log.push(entry)) == log_text(log) + entry.update.text(),
{
    let texts = log.map_values(|entry: EntryView| entry.update.text());
    assert(log.push(entry).map_values(|entry: EntryView| entry.update.text()) =~= texts.push(
        entry.update.text(),
    ));
    texts.lemma_flatten_push(entry.update.text());
}

/// What holds after every prefix of a stream that began without a buffer:
/// the log has only grown, by groups of the stream's kind, and the text of
/// the new entries followed by the buffered text is the text of the
/// fragments so far.
proof fn lemma_stream_invariant(
    state: ServiceView,
    session_id: Seq<char>,
    kind: ChunkKind,
    steps: Seq<StreamStep>,
)
    requires
        state.wf(),
        session_id.len() > 0,
        !state.buffers.contains_key(session_id),
        RECORD_HEADER_LEN + encode_utf8(fragments_of(steps).flatten()).len() <= state.record_limit,
    ensures
        ({
            let end = after_steps(state, session_id, kind, steps);
            let base = state.logs[session_id];
            let log = end.logs[session_id];
            &&& end.wf()
            &&& end.record_limit == state.record_limit
            &&& end.pending(session_id) is None || end.pending(session_id) == Some(kind)
            &&& extends_with_kind(log, base, kind)
            &&& log.len() <= base.len() + seals_in(steps)
            &&& log_text(log.subrange(base.len() as int, log.len() as int)) + buffered_text(
                end,
                session_id,
            ) == fragments_of(steps).flatten()
        }),
    decreases steps.len(),
{
    let base = state.logs[session_id];
    let end = after_steps(state, session_id, kind, steps);
    if steps.len() == 0 {
        assert(base.subrange(0, base.len() as int) =~= base);
        assert(base.subrange(base.len() as int, base.len() as int) =~= Seq::<EntryView>::empty());
        assert(Seq::<EntryView>::empty().map_values(|entry: EntryView| entry.update.text())
            =~= Seq::<Seq<char>>::empty());
        assert(log_text(Seq::<EntryView>::empty()) + buffered_text(end, session_id)
            =~= fragments_of(steps).flatten());
    } else {
        let earlier = steps.drop_last();
        let before = after_steps(state, session_id, kind, earlier);
        let log_before = before.logs[session_id];
        let new_before = log_before.subrange(base.len() as int, log_before.len() as int);
        let so_far = fragments_of(earlier).flatten();
        match steps.last() {
            StreamStep::Fragment { text, at } => {
                fragments_of(earlier).lemma_flatten_push(text);
                lemma_encode_utf8_concat(so_far, text);
                lemma_stream_invariant(state, session_id, kind, earlier);
                assert(end == before.buffered(session_id, kind, text, at));
                assert(log_text(new_before) + buffered_text(end, session_id) =~= fragments_of(
                    steps,
                ).flatten());
            },
            StreamStep::Seal { at } => {
                lemma_stream_invariant(state, session_id, kind, earlier);
                assert(end == before.sealed(session_id, at));
                if before.buffers.contains_key(session_id) {
                    let held = before.buffers[session_id].accumulated_text;
                    let entry = merged_entry(kind, held, at);
                    lemma_encode_utf8_concat(log_text(new_before), held);
                    assert(fits_record(entry, before.record_limit));
                    let log = end.logs[session_id];
                    assert(log == log_before.push(entry));
                    assert(log.subrange(0, base.len() as int) =~= log_before.subrange(
                        0,
                        base.len() as int,
                    ));
                    assert(log.subrange(base.len() as int, log.len() as int) =~= new_before.push(
                        entry,
                    ));
                    lemma_log_text_push(new_before, entry);
                    assert(log_text(new_before.push(entry)) + buffered_text(end, session_id)
                        =~= fragments_of(steps).flatten());
                }
            },
        }
    }
}

/// No fragment is lost or reordered: however seals fall between the
/// fragments of a stream of one kind, once the session is flushed at the
/// end, the entries written for the stream hold, joined in order, exactly
/// the fragments' texts in order of arrival. The log has kept what it held
/// before, has gained only groups of the stream's kind, at most one per seal
/// and one for the final flush, and no buffer is left.
pub proof fn law_stream_text_is_preserved(
    state: ServiceView,
    session_id: Seq<char>,
    kind: ChunkKind,
    steps: Seq<StreamStep>,
    flushed_at: u64,
)
    requires
        state.wf(),
        session_id.len() > 0,
        !state.buffers.contains_key(session_id),
        RECORD_HEADER_LEN + encode_utf8(fragments_of(steps).flatten()).len() <= state.record_limit,
    ensures
        ({
            let end = after_steps(state, session_id, kind, steps).after_flush_session(session_id, flushed_at);
            let base = state.logs[session_id];
            let log = end.logs[session_id];
            &&& !end.buffers.contains_key(session_id)
            &&& extends_with_kind(log, base, kind)
            &&& log.len() <= base.len() + seals_in(steps) + 1
            &&& log_text(log.subrange(base.len() as int, log.len() as int)) == fragments_of(
                steps,
            ).flatten()
        }),
{
    let all = steps.push(StreamStep::Seal { at: flushed_at });
    assert(all.drop_last() == steps);
    assert(fragments_of(all) == fragments_of(steps));
    assert(seals_in(all) == seals_in(steps) + 1);
    lemma_stream_invariant(state, session_id, kind, all);
    let end = after_steps(state, session_id, kind, all);
    let base = state.logs[session_id];
    let log = end.logs[session_id];
    assert(log_text(log.subrange(base.len() as int, log.len() as int)) + Seq::<char>::empty()
        =~= log_text(log.subrange(base.len() as int, log.len() as int)));
}

/// A timer never seals a buffer that was armed after it: as long as the
/// generations have not wrapped around, a fragment that is buffered arms a
/// timer newer than every timer issued before, so that each of those is
/// ignored when it fires, whether it was armed for this buffer, for an
/// earlier buffer of the session or for another session.
pub proof fn law_earlier_timers_are_ignored(
    state: ServiceView,
    session_id: Seq<char>,
    kind: ChunkKind,
    text: Seq<char>,
    now: u64,
    issued: u64,
    fired_at: u64,
)
    requires
        state.wf(),
        session_id.len() > 0,
        state.generation < u64::MAX,
        issued <= state.generation,
        state.save_result(session_id, UpdateView::Chunk { kind, text }, now) == Ok::<
            (),
            PersistError,
        >(()),
    ensures
        ({
            let next = state.after_save(session_id, UpdateView::Chunk { kind, text }, now);
            &&& next.generation == state.generation + 1
            &&& next.buffers.contains_key(session_id)
            &&& next.buffers[session_id].timer.generation == next.generation
            &&& next.timer_outcome(session_id, issued, fired_at) == TimerOutcome::Ignored
            &&& next.after_timer(session_id, issued, fired_at) == next
        }),
{
}

/// Generations are issued in rising order: no operation takes the count of
/// issued generations back, short of wrapping around.
pub proof fn law_generations_only_grow(
    state: ServiceView,
    session_id: Seq<char>,
    update: UpdateView,
    generation: u64,
    now: u64,
    only_due: bool,
)
    requires
        state.wf(),
        state.generation < u64::MAX,
    ensures
        state.generation <= state.after_save(session_id, update, now).generation,
        state.generation == state.after_flush_session(session_id, now).generation,
        state.generation == state.after_timer(session_id, generation, now).generation,
        state.generation == state.after_flush(now, only_due).generation,
{
}

/// The log is append-only: saving an update, flushing a session, the firing
/// of a timer and a flush of many sessions leave every entry that a log
/// holds where it is and as it is. They only add entries at the end.
pub proof fn law_log_is_append_only(
    state: ServiceView,
    session_id: Seq<char>,
    update: UpdateView,
    generation: u64,
    now: u64,
    only_due: bool,
    read: Seq<char>,
)
    requires
        state.wf(),
    ensures
        state.logs[read].is_prefix_of(state.after_save(session_id, update, now).logs[read]),
        state.logs[read].is_prefix_of(state.after_flush_session(session_id, now).logs[read]),
        state.logs[read].is_prefix_of(state.after_timer(session_id, generation, now).logs[read]),
        state.logs[read].is_prefix_of(state.after_flush(now, only_due).logs[read]),
{
    let log = state.logs[read];
    assert(log.is_prefix_of(log));
    assert forall|entry: EntryView| log.is_prefix_of(#[trigger] log.push(entry)) by {
        assert(log.push(entry).subrange(0, log.len() as int) =~= log);
    }
    assert forall|first: EntryView, second: EntryView|
        log.is_prefix_of(#[trigger] log.push(first).push(second)) by {
        assert(log.push(first).push(second).subrange(0, log.len() as int) =~= log);
    }
    let sealed = state.sealed(session_id, now);
    assert(log.is_prefix_of(sealed.logs[read]));
    assert(log.is_prefix_of(state.after_save(session_id, update, now).logs[read]));
    assert(log.is_prefix_of(state.sealed(read, now).logs[read]));
}

/// A timer whose seal the store refuses still clears the buffer: the
/// session is left without a buffer and with its log as it was, so that the
/// refused content is not offered to the store again.
pub proof fn law_refused_timer_clears_the_buffer(
    state: ServiceView,
    session_id: Seq<char>,
    generation: u64,
    now: u64,
)
    requires
        state.wf(),
        state.timer_is_current(session_id, generation),
        state.seal_fails(session_id, now),
    ensures
        ({
            let end = state.after_timer(session_id, generation, now);
            &&& state.timer_outcome(session_id, generation, now) is SealFailed
            &&& !end.buffers.contains_key(session_id)
            &&& end.logs == state.logs
            &&& end.wf()
        }),
{
}

/// What is exported can be restored: the stored form of a session's log,
/// given to a service with the same record limit, is read back as that log,
/// entry for entry.
pub proof fn law_export_then_restore(
    state: ServiceView,
    other: ServiceView,
    session_id: Seq<char>,
)
    requires
        session_id.len() > 0,
        all_fit(state.logs[session_id], state.record_limit),
        other.record_limit == state.record_limit,
    ensures
        other.restore_result(session_id, encode_log(state.logs[session_id])) == Ok::<
            Seq<EntryView>,
            PersistError,
        >(state.logs[session_id]),
        other.after_restore(session_id, encode_log(state.logs[session_id])).load_result(session_id)
            == state.load_result(session_id),
{
    let log = state.logs[session_id];
    assert forall|i: int| 0 <= i < log.len() implies fits_record(
        #[trigger] log[i],
        DEFAULT_RECORD_LIMIT,
    ) by {
        assert(fits_record(log[i], state.record_limit));
    }
    law_stored_log_round_trip(log);
}

/// A write that was cut short loses only itself: when the frame of the
/// entry appended last reached the stored bytes only in part, a restore
/// reads the log as it was before that entry.
pub proof fn law_restore_survives_a_torn_write(
    state: ServiceView,
    other: ServiceView,
    session_id: Seq<char>,
    entry: EntryView,
    written: int,
)
    requires
        session_id.len() > 0,
        all_fit(state.logs[session_id], state.record_limit),
        fits_record(entry, state.record_limit),
        other.record_limit == state.record_limit,
        0 <= written < encode_frame(entry).len(),
    ensures
        other.restore_result(
            session_id,
            encode_log(state.logs[session_id]) + encode_frame(entry).subrange(0, written),
        ) == Ok::<Seq<EntryView>, PersistError>(state.logs[session_id]),
{
    let log = state.logs[session_id];
    assert forall|i: int| 0 <= i < log.len() implies fits_record(
        #[trigger] log[i],
        DEFAULT_RECORD_LIMIT,
    ) by {
        assert(fits_record(log[i], state.record_limit));
    }
    law_torn_write_is_dropped(log, entry, written);
}

/// A stored log is kept up by appending: the stored form of the entries up
/// to a place, followed by what is exported from that place on, is the
/// stored form of the whole log.
pub proof fn law_stored_log_is_kept_up_by_appending(log: Seq<EntryView>, stored: int)
    requires
        0 <= stored <= log.len(),
    ensures
        encode_log(log.subrange(0, stored)) + encode_log(entries_from(log, stored)) == encode_log(
            log,
        ),
{
    assert(log.subrange(0, stored) + entries_from(log, stored) =~= log);
    law_stored_log_is_joined(log.subrange(0, stored), entries_from(log, stored));
}

} // verus!
