//! What holds of every run of a session, proved over the model of
//! [`crate::session`].

use crate::decoder::{
    document_events, ends_with_done, lemma_record_events_form, pull_progress, record_events,
    StreamKind,
};
use crate::event::Event;
use crate::json::json_document;
use crate::reassembler::{
    decoded, lemma_append, lemma_no_newline, lemma_records_append, records, remainder,
};
use crate::session::{records_events, Input, SessionModel, SessionState};
use crate::text::lossy_text;
use vstd::prelude::*;

verus! {

/// Whether none of `events` is terminal.
pub open spec fn none_terminal(events: Seq<Event>) -> bool {
    forall|i: int| 0 <= i < events.len() ==> !(#[trigger] events[i]).is_terminal()
}

/// Whether no event of `events` but the last is terminal.
pub open spec fn terminal_only_last(events: Seq<Event>) -> bool {
    forall|i: int| 0 <= i < events.len() - 1 ==> !(#[trigger] events[i]).is_terminal()
}

/// Whether `events` is what a session that stands at `state` may have sent
/// out: no terminal event while it is under way, and after it has ended
/// exactly one, in last place: the `Done` with the session's id for a closed
/// session, an `Error` for a failed one.
pub open spec fn orderly(state: SessionState, session_id: Seq<char>, events: Seq<Event>) -> bool {
    match state {
        SessionState::Opening | SessionState::Streaming => none_terminal(events),
        SessionState::Completing => false,
        SessionState::Closed => events.len() > 0 && events.last() == (Event::Done { session_id })
            && terminal_only_last(events),
        SessionState::Failed => events.len() > 0 && events.last() is Error && terminal_only_last(
            events,
        ),
    }
}

/// The events of every record of a run, in order, with no regard to `Done`.
pub open spec fn all_record_events(
    kind: StreamKind,
    session_id: Seq<char>,
    records: Seq<Seq<char>>,
) -> Seq<Event>
    decreases records.len(),
{
    if records.len() == 0 {
        seq![]
    } else {
        record_events(kind, session_id, records[0]) + all_record_events(
            kind,
            session_id,
            records.drop_first(),
        )
    }
}

/// Whether `record` is the text of a JSON object.
pub open spec fn holds_object(record: Seq<char>) -> bool {
    record.len() > 0 && match json_document(record) {
        Some(doc) => doc is Object,
        None => false,
    }
}

/// The inputs that deliver `chunks` one after the other.
pub open spec fn chunk_inputs(chunks: Seq<Seq<u8>>) -> Seq<Input> {
    chunks.map_values(|chunk: Seq<u8>| Input::Chunk(chunk))
}

/// The events of a run of records hold at most one terminal event: a `Done`
/// with the session's id, in last place. No `Error` comes from a record.
pub proof fn lemma_records_events_form(
    kind: StreamKind,
    session_id: Seq<char>,
    records: Seq<Seq<char>>,
)
    ensures
        terminal_only_last(records_events(kind, session_id, records)),
        !ends_with_done(records_events(kind, session_id, records)) ==> none_terminal(
            records_events(kind, session_id, records),
        ),
        ends_with_done(records_events(kind, session_id, records)) ==> kind == StreamKind::Chat
            && records_events(kind, session_id, records).last() == (Event::Done { session_id }),
    decreases records.len(),
{
    let events = records_events(kind, session_id, records);
    if records.len() > 0 {
        let head = record_events(kind, session_id, records[0]);
        lemma_record_events_form(kind, session_id, records[0]);
        if !ends_with_done(head) {
            let tail = records_events(kind, session_id, records.drop_first());
            lemma_records_events_form(kind, session_id, records.drop_first());
            assert forall|i: int| 0 <= i < head.len() implies !(#[trigger] head[i]).is_terminal() by {
                if i == head.len() - 1 {
                    assert(head[i] == head.last());
                }
            }
            assert forall|i: int| 0 <= i < events.len() - 1 implies !(
            #[trigger] events[i]).is_terminal() by {
                if i < head.len() {
                    assert(events[i] == head[i]);
                } else {
                    assert(events[i] == tail[i - head.len()]);
                }
            }
            if tail.len() > 0 {
                assert(events.last() == tail.last());
            }
            if !ends_with_done(events) {
                assert forall|i: int| 0 <= i < events.len() implies !(
                #[trigger] events[i]).is_terminal() by {
                    if i < head.len() {
                        assert(events[i] == head[i]);
                    } else {
                        assert(events[i] == tail[i - head.len()]);
                    }
                }
            }
        }
    }
}

/// Decoding stops at the first `Done`: once the events of some records end
/// with one, the records that follow add nothing; until then, decoding two
/// runs of records one after the other is decoding them as one run.
pub proof fn lemma_records_events_append(
    kind: StreamKind,
    session_id: Seq<char>,
    first: Seq<Seq<char>>,
    second: Seq<Seq<char>>,
)
    ensures
        records_events(kind, session_id, first + second) == if ends_with_done(
            records_events(kind, session_id, first),
        ) {
            records_events(kind, session_id, first)
        } else {
            records_events(kind, session_id, first) + records_events(kind, session_id, second)
        },
    decreases first.len(),
{
    if first.len() == 0 {
        assert(first + second =~= second);
        assert(seq![] + records_events(kind, session_id, second) =~= records_events(
            kind,
            session_id,
            second,
        ));
    } else {
        let head = record_events(kind, session_id, first[0]);
        assert((first + second)[0] == first[0]);
        assert((first + second).drop_first() =~= first.drop_first() + second);
        if !ends_with_done(head) {
            let tail = records_events(kind, session_id, first.drop_first());
            lemma_records_events_append(kind, session_id, first.drop_first(), second);
            lemma_record_events_form(kind, session_id, first[0]);
            lemma_records_events_form(kind, session_id, first.drop_first());
            if tail.len() > 0 {
                assert((head + tail).last() == tail.last());
            } else {
                assert(head + tail =~= head);
            }
            assert(ends_with_done(head + tail) == ends_with_done(tail));
            assert(head + (tail + records_events(kind, session_id, second)) =~= (head + tail)
                + records_events(kind, session_id, second));
        }
    }
}

/// In a pull stream no record ends the decoding: the events of a run of
/// records are those of all its records.
pub proof fn lemma_pull_records_events(session_id: Seq<char>, records: Seq<Seq<char>>)
    ensures
        records_events(StreamKind::Pull, session_id, records) == all_record_events(
            StreamKind::Pull,
            session_id,
            records,
        ),
        none_terminal(records_events(StreamKind::Pull, session_id, records)),
    decreases records.len(),
{
    lemma_records_events_form(StreamKind::Pull, session_id, records);
    if records.len() > 0 {
        lemma_record_events_form(StreamKind::Pull, session_id, records[0]);
        lemma_pull_records_events(session_id, records.drop_first());
    }
}

/// Every record that is a JSON object gives exactly one `Progress` event in
/// a pull stream: a run of such records gives one event per record, in
/// order, each made of what its record holds.
pub proof fn lemma_pull_progress_per_record(session_id: Seq<char>, records: Seq<Seq<char>>)
    requires
        forall|i: int|
            0 <= i < records.len() ==> holds_object(#[trigger] records[i]),
    ensures
        records_events(StreamKind::Pull, session_id, records).len() == records.len(),
        forall|i: int|
            0 <= i < records.len() ==> #[trigger] records_events(
                StreamKind::Pull,
                session_id,
                records,
            )[i] is Progress && Some(records_events(StreamKind::Pull, session_id, records)[i])
                == pull_progress(json_document(records[i])->0),
    decreases records.len(),
{
    let events = records_events(StreamKind::Pull, session_id, records);
    if records.len() > 0 {
        let rest = records.drop_first();
        assert(holds_object(records[0]));
        let head = record_events(StreamKind::Pull, session_id, records[0]);
        assert(head == document_events(
            StreamKind::Pull,
            session_id,
            json_document(records[0])->0,
        ));
        assert(head.len() == 1);
        assert forall|i: int| 0 <= i < rest.len() implies holds_object(#[trigger] rest[i]) by {
            assert(rest[i] == records[i + 1]);
        }
        lemma_pull_progress_per_record(session_id, rest);
        let tail = records_events(StreamKind::Pull, session_id, rest);
        assert(events == head + tail);
        assert forall|i: int| 0 <= i < records.len() implies #[trigger] events[i] is Progress
            && Some(events[i]) == pull_progress(json_document(records[i])->0) by {
            if i == 0 {
                assert(events[0] == head[0]);
            } else {
                assert(events[i] == tail[i - 1]);
                assert(rest[i - 1] == records[i]);
            }
        }
    }
}

/// Cutting the text of a streaming session in two changes nothing. While the
/// first part leaves the session streaming, taking the parts one after the
/// other gives the state and the events of taking them as one; once the
/// first part has closed the session, the second part adds no event.
pub proof fn lemma_take_text_split(s: SessionModel, first: Seq<char>, second: Seq<char>)
    ensures
        s.take_text(first).0.state is Streaming ==> s.take_text(first + second) == (
            s.take_text(first).0.take_text(second).0,
            s.take_text(first).1 + s.take_text(first).0.take_text(second).1,
        ),
        s.take_text(first).0.state is Closed ==> s.take_text(first + second).1 == s.take_text(
            first,
        ).1 && s.take_text(first + second).0.state is Closed,
{
    let all = s.pending + first;
    assert(s.pending + (first + second) =~= all + second);
    lemma_append(all, second);
    lemma_records_append(all, second);
    lemma_records_events_append(
        s.kind,
        s.session_id,
        records(all),
        records(remainder(all) + second),
    );
    let early = records_events(s.kind, s.session_id, records(all));
    let late = records_events(s.kind, s.session_id, records(remainder(all) + second));
    if !ends_with_done(early) {
        lemma_records_events_form(s.kind, s.session_id, records(all));
        if late.len() > 0 {
            assert((early + late).last() == late.last());
        } else {
            assert(early + late =~= early);
        }
        assert(ends_with_done(early + late) == ends_with_done(late));
    }
}

/// A run of inputs can be cut anywhere: the second part starts where the
/// first part ended, and the events of the two parts follow one another.
pub proof fn lemma_run_append(s: SessionModel, first: Seq<Input>, second: Seq<Input>)
    ensures
        s.run(first + second) == (
            s.run(first).0.run(second).0,
            s.run(first).1 + s.run(first).0.run(second).1,
        ),
    decreases second.len(),
{
    if second.len() == 0 {
        assert(first + second =~= first);
        assert(s.run(first).1 + Seq::<Event>::empty() =~= s.run(first).1);
    } else {
        let init = second.drop_last();
        assert((first + second).drop_last() =~= first + init);
        assert((first + second).last() == second.last());
        lemma_run_append(s, first, init);
        let mid = s.run(first).0;
        let (before, earlier) = mid.run(init);
        let later = before.step(second.last()).1;
        assert(s.run(first).1 + (earlier + later) =~= (s.run(first).1 + earlier) + later);
    }
}

/// One step keeps the events orderly, whatever the input.
pub proof fn lemma_step_keeps_order(s: SessionModel, events: Seq<Event>, input: Input)
    requires
        orderly(s.state, s.session_id, events),
    ensures
        s.step(input).0.kind == s.kind,
        s.step(input).0.session_id == s.session_id,
        orderly(s.step(input).0.state, s.session_id, events + s.step(input).1),
{
    let (next, more) = s.step(input);
    let all = events + more;
    if more.len() == 0 {
        assert(all =~= events);
    } else {
        if s.state is Streaming && input is Chunk {
            lemma_records_events_form(
                s.kind,
                s.session_id,
                records(s.pending + lossy_text(input->Chunk_0)),
            );
        }
        assert(all.last() == more.last());
        assert forall|i: int| 0 <= i < all.len() - 1 implies !(#[trigger] all[i]).is_terminal() by {
            if i < events.len() {
                assert(all[i] == events[i]);
            } else {
                assert(all[i] == more[i - events.len()]);
            }
        }
        if next.state is Streaming {
            assert forall|i: int| 0 <= i < all.len() implies !(#[trigger] all[i]).is_terminal() by {
                if i < events.len() {
                    assert(all[i] == events[i]);
                } else {
                    assert(all[i] == more[i - events.len()]);
                }
            }
        }
    }
}

/// Garbled output never fails a stream: whatever bytes a chunk holds, taking
/// it in sends out no `Error` and leaves the session failed only if it had
/// failed before.
pub proof fn lemma_chunk_never_fails(s: SessionModel, bytes: Seq<u8>)
    ensures
        s.step(Input::Chunk(bytes)).0.state is Failed <==> s.state is Failed,
        forall|i: int|
            0 <= i < s.step(Input::Chunk(bytes)).1.len() ==> !(#[trigger] s.step(
                Input::Chunk(bytes),
            ).1[i] is Error),
{
    if s.state is Streaming {
        let all = records(s.pending + lossy_text(bytes));
        let events = records_events(s.kind, s.session_id, all);
        lemma_records_events_form(s.kind, s.session_id, all);
        assert forall|i: int| 0 <= i < events.len() implies !(#[trigger] events[i] is Error) by {
            if i == events.len() - 1 && ends_with_done(events) {
                assert(events[i] == events.last());
            }
        }
    }
}

/// Exactly one terminal event, never both: whatever the transport delivers
/// to a fresh session, the events that go out are orderly. While the session
/// is under way none of them is terminal; a closed session has sent exactly
/// one `Done`, as its last event, and no `Error`; a failed session has sent
/// exactly one `Error`, as its last event, and no `Done`. A session never
/// rests in `Completing`.
pub proof fn lemma_run_is_orderly(kind: StreamKind, session_id: Seq<char>, inputs: Seq<Input>)
    ensures
        SessionModel::fresh(kind, session_id).run(inputs).0.kind == kind,
        SessionModel::fresh(kind, session_id).run(inputs).0.session_id == session_id,
        orderly(
            SessionModel::fresh(kind, session_id).run(inputs).0.state,
            session_id,
            SessionModel::fresh(kind, session_id).run(inputs).1,
        ),
    decreases inputs.len(),
{
    if inputs.len() > 0 {
        let fresh = SessionModel::fresh(kind, session_id);
        lemma_run_is_orderly(kind, session_id, inputs.drop_last());
        let (before, earlier) = fresh.run(inputs.drop_last());
        lemma_step_keeps_order(before, earlier, inputs.last());
    }
}

/// A session that has ended stays as it is: whatever the transport still
/// delivers changes nothing and sends nothing out. So the chunks that follow
/// the first `Done` are ignored.
pub proof fn lemma_over_is_final(s: SessionModel, inputs: Seq<Input>)
    requires
        s.is_over(),
    ensures
        s.run(inputs) == (s, Seq::<Event>::empty()),
    decreases inputs.len(),
{
    if inputs.len() > 0 {
        lemma_over_is_final(s, inputs.drop_last());
        assert(Seq::<Event>::empty() + Seq::<Event>::empty() =~= Seq::<Event>::empty());
    }
}

/// At most one `Done`: of the events of any run of a fresh session, no two
/// are `Done`.
pub proof fn lemma_at_most_one_done(
    kind: StreamKind,
    session_id: Seq<char>,
    inputs: Seq<Input>,
    i: int,
    j: int,
)
    requires
        0 <= i < j < SessionModel::fresh(kind, session_id).run(inputs).1.len(),
    ensures
        !(SessionModel::fresh(kind, session_id).run(inputs).1[i] is Done),
{
    lemma_run_is_orderly(kind, session_id, inputs);
}

/// A transport failure is told apart from completion: if the transport fails
/// while the session is under way, the events sent out so far stay as they
/// are, one `Error` with the transport's message follows them, the session
/// has failed, and no `Done` is among its events.
pub proof fn lemma_failure_sends_no_done(
    kind: StreamKind,
    session_id: Seq<char>,
    inputs: Seq<Input>,
    message: Seq<char>,
)
    requires
        !SessionModel::fresh(kind, session_id).run(inputs).0.is_over(),
    ensures
        SessionModel::fresh(kind, session_id).run(inputs.push(Input::Failure(message))).0.state
            is Failed,
        SessionModel::fresh(kind, session_id).run(inputs.push(Input::Failure(message))).1
            == SessionModel::fresh(kind, session_id).run(inputs).1.push(Event::Error { message }),
        forall|i: int|
            0 <= i < SessionModel::fresh(kind, session_id).run(
                inputs.push(Input::Failure(message)),
            ).1.len() ==> !(#[trigger] SessionModel::fresh(kind, session_id).run(
                inputs.push(Input::Failure(message)),
            ).1[i] is Done),
{
    let fresh = SessionModel::fresh(kind, session_id);
    let longer = inputs.push(Input::Failure(message));
    lemma_run_is_orderly(kind, session_id, inputs);
    assert(longer.drop_last() =~= inputs);
    assert(longer.last() == Input::Failure(message));
    let (before, earlier) = fresh.run(inputs);
    let events = fresh.run(longer).1;
    assert(events =~= earlier.push(Event::Error { message }));
    assert forall|i: int| 0 <= i < events.len() implies !(#[trigger] events[i] is Done) by {
        if i < earlier.len() {
            assert(events[i] == earlier[i]);
        }
    }
}

/// Feeding a streaming pull session chunk after chunk decodes every record
/// of the text that the chunks make up: the session keeps streaming, holds
/// back what the text leaves over, and has sent out the events of all the
/// records, none of them terminal.
pub proof fn lemma_pull_chunks(s: SessionModel, chunks: Seq<Seq<u8>>)
    requires
        s.kind == StreamKind::Pull,
        s.state is Streaming,
        !s.pending.contains('\n'),
    ensures
        s.run(chunk_inputs(chunks)) == (
            SessionModel { pending: remainder(s.pending + decoded(chunks).flatten()), ..s },
            records_events(
                StreamKind::Pull,
                s.session_id,
                records(s.pending + decoded(chunks).flatten()),
            ),
        ),
    decreases chunks.len(),
{
    let inputs = chunk_inputs(chunks);
    let texts = decoded(chunks);
    if chunks.len() == 0 {
        assert(texts.flatten() =~= Seq::<char>::empty());
        assert(s.pending + texts.flatten() =~= s.pending);
        lemma_no_newline(s.pending);
        assert(records(s.pending) =~= Seq::<Seq<char>>::empty());
    } else {
        let init = chunks.drop_last();
        lemma_pull_chunks(s, init);
        assert(inputs.drop_last() =~= chunk_inputs(init));
        assert(inputs.last() == Input::Chunk(chunks.last()));
        assert(texts.drop_last() =~= decoded(init));
        assert(texts.last() == lossy_text(chunks.last()));
        decoded(init).lemma_flatten_push(texts.last());
        assert(decoded(init).push(texts.last()) =~= texts);
        let before = s.pending + decoded(init).flatten();
        assert(s.pending + texts.flatten() =~= before + texts.last());
        let mid = SessionModel { pending: remainder(before), ..s };
        lemma_append(before, texts.last());
        lemma_records_append(before, texts.last());
        lemma_records_events_append(
            StreamKind::Pull,
            s.session_id,
            records(before),
            records(remainder(before) + texts.last()),
        );
        lemma_pull_records_events(s.session_id, records(before));
        lemma_pull_records_events(s.session_id, records(before + texts.last()));
        lemma_records_events_form(StreamKind::Pull, s.session_id, records(before + texts.last()));
        lemma_records_events_form(StreamKind::Pull, s.session_id, records(before));
        lemma_records_events_form(StreamKind::Pull, s.session_id, records(remainder(before) + texts.last()));
    }
}

/// A pull stream always completes: a streaming pull session that is fed any
/// chunks and then the end of the stream closes, having sent out the events
/// of all the records of the text that the chunks make up, then a `Done` of
/// its own. It never fails.
pub proof fn lemma_pull_stream_completes(s: SessionModel, chunks: Seq<Seq<u8>>)
    requires
        s.kind == StreamKind::Pull,
        s.state is Streaming,
        !s.pending.contains('\n'),
    ensures
        s.run(chunk_inputs(chunks).push(Input::End)) == (
            SessionModel {
                state: SessionState::Closed,
                pending: remainder(s.pending + decoded(chunks).flatten()),
                ..s
            },
            all_record_events(
                StreamKind::Pull,
                s.session_id,
                records(s.pending + decoded(chunks).flatten()),
            ).push(Event::Done { session_id: s.session_id }),
        ),
{
    let inputs = chunk_inputs(chunks).push(Input::End);
    assert(inputs.drop_last() =~= chunk_inputs(chunks));
    assert(inputs.last() == Input::End);
    lemma_pull_chunks(s, chunks);
    let text = s.pending + decoded(chunks).flatten();
    lemma_pull_records_events(s.session_id, records(text));
    let earlier = records_events(StreamKind::Pull, s.session_id, records(text));
    assert(earlier + seq![Event::Done { session_id: s.session_id }] =~= earlier.push(
        Event::Done { session_id: s.session_id },
    ));
}

/// A stream of N pull records, each a JSON object, followed by the end of
/// the stream gives N `Progress` events, one per record and in order, then
/// one `Done`: N + 1 events, none of them an `Error`.
pub proof fn lemma_pull_stream_of_objects(s: SessionModel, chunks: Seq<Seq<u8>>)
    requires
        s.kind == StreamKind::Pull,
        s.state is Streaming,
        !s.pending.contains('\n'),
        forall|i: int|
            0 <= i < records(s.pending + decoded(chunks).flatten()).len() ==> holds_object(
                #[trigger] records(s.pending + decoded(chunks).flatten())[i],
            ),
    ensures
        s.run(chunk_inputs(chunks).push(Input::End)).0.state is Closed,
        s.run(chunk_inputs(chunks).push(Input::End)).1.len() == records(
            s.pending + decoded(chunks).flatten(),
        ).len() + 1,
        forall|i: int|
            0 <= i < records(s.pending + decoded(chunks).flatten()).len() ==> Some(
                #[trigger] s.run(chunk_inputs(chunks).push(Input::End)).1[i],
            ) == pull_progress(
                json_document(records(s.pending + decoded(chunks).flatten())[i])->0,
            ),
        s.run(chunk_inputs(chunks).push(Input::End)).1.last() == (Event::Done {
            session_id: s.session_id,
        }),
{
    let all = records(s.pending + decoded(chunks).flatten());
    lemma_pull_stream_completes(s, chunks);
    lemma_pull_records_events(s.session_id, all);
    lemma_pull_progress_per_record(s.session_id, all);
    let events = s.run(chunk_inputs(chunks).push(Input::End)).1;
    let progress = records_events(StreamKind::Pull, s.session_id, all);
    assert(events == progress.push(Event::Done { session_id: s.session_id }));
    assert forall|i: int| 0 <= i < all.len() implies Some(#[trigger] events[i]) == pull_progress(
        json_document(all[i])->0,
    ) by {
        assert(events[i] == progress[i]);
    }
}

} // verus!
