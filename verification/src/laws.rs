//! What holds of a session as a whole, whatever happens to it and in whatever order.

use crate::audio;
use crate::audio::TARGET_AUDIO_CHUNK_BYTES;
use crate::error::ErrorView;
use crate::json::JsonTree;
use crate::protocol::{
    LastFrameEventView, LastFrameStepView, Outcome, ReactionView, SendItemView, SessionView,
    SocketEventView, WaitEventView, WaitStepView,
};
use crate::segments;
use crate::signing::CredentialsView;
use crate::words;
use vstd::prelude::*;

verus! {

/// Something that happens to a session, with the time since it was opened where that matters.
pub enum SessionStep {
    /// A connection stands: the session begins anew.
    Connected,
    /// Audio arrives.
    Pcm(Seq<u8>),
    /// Something happens on the connection.
    Socket(SocketEventView, Option<u64>),
    /// The end of the audio is sent.
    LastFrame(LastFrameEventView),
    /// The outcome is waited for.
    Wait(WaitEventView, Option<u64>),
    /// The session is given up.
    Cancel,
}

/// The session after one step.
pub open spec fn after_step(session: SessionView, step: SessionStep) -> SessionView {
    match step {
        SessionStep::Connected => session.connected(),
        SessionStep::Pcm(pcm) => session.consume(pcm).0,
        SessionStep::Socket(event, elapsed_ms) => session.receive(event, elapsed_ms).0,
        SessionStep::LastFrame(event) => session.send_last_frame(event).0,
        SessionStep::Wait(event, elapsed_ms) => session.await_final_result(event, elapsed_ms).0,
        SessionStep::Cancel => session.cancelled(),
    }
}

/// The frames among `items`, in order.
pub open spec fn audio_among(items: Seq<SendItemView>) -> Seq<Seq<u8>>
    decreases items.len(),
{
    if items.len() == 0 {
        Seq::empty()
    } else {
        match items.last() {
            SendItemView::Audio(frame) => audio_among(items.drop_last()).push(frame),
            SendItemView::Finish => audio_among(items.drop_last()),
        }
    }
}

/// The frames that one step hands to the queue.
pub open spec fn frames_of_step(session: SessionView, step: SessionStep) -> Seq<Seq<u8>> {
    match step {
        SessionStep::Pcm(pcm) => session.consume(pcm).1,
        SessionStep::Socket(event, elapsed_ms) => match session.receive(event, elapsed_ms).2 {
            ReactionView::Started(frames) => frames,
            _ => Seq::empty(),
        },
        SessionStep::LastFrame(event) => match session.send_last_frame(event).1 {
            LastFrameStepView::Send(items) => audio_among(items),
            _ => Seq::empty(),
        },
        _ => Seq::empty(),
    }
}

/// The outcome that one step delivers.
pub open spec fn outcome_of_step(session: SessionView, step: SessionStep) -> Option<Outcome> {
    match step {
        SessionStep::Socket(event, elapsed_ms) => match session.receive(event, elapsed_ms).2 {
            ReactionView::Closed(outcome) => outcome,
            _ => None,
        },
        _ => None,
    }
}

/// The audio that one step brings.
pub open spec fn audio_of_step(step: SessionStep) -> Seq<u8> {
    match step {
        SessionStep::Pcm(pcm) => pcm,
        _ => Seq::empty(),
    }
}

/// The session after all steps.
pub open spec fn after(session: SessionView, steps: Seq<SessionStep>) -> SessionView
    decreases steps.len(),
{
    if steps.len() == 0 {
        session
    } else {
        after_step(after(session, steps.drop_last()), steps.last())
    }
}

/// All bytes that the steps hand to the queue, in order.
pub open spec fn bytes_sent(session: SessionView, steps: Seq<SessionStep>) -> Seq<u8>
    decreases steps.len(),
{
    if steps.len() == 0 {
        Seq::empty()
    } else {
        bytes_sent(session, steps.drop_last()) + frames_of_step(
            after(session, steps.drop_last()),
            steps.last(),
        ).flatten()
    }
}

/// All audio that the steps bring, in order.
pub open spec fn bytes_brought(steps: Seq<SessionStep>) -> Seq<u8>
    decreases steps.len(),
{
    if steps.len() == 0 {
        Seq::empty()
    } else {
        bytes_brought(steps.drop_last()) + audio_of_step(steps.last())
    }
}

/// How many outcomes the steps deliver.
pub open spec fn outcomes_delivered(session: SessionView, steps: Seq<SessionStep>) -> nat
    decreases steps.len(),
{
    if steps.len() == 0 {
        0
    } else {
        outcomes_delivered(session, steps.drop_last()) + (if outcome_of_step(
            after(session, steps.drop_last()),
            steps.last(),
        ) is Some {
            1nat
        } else {
            0nat
        })
    }
}

/// None of the steps begins the session anew.
pub open spec fn one_session(steps: Seq<SessionStep>) -> bool {
    forall|i: int| 0 <= i < steps.len() ==> !(#[trigger] steps[i] is Connected)
}

/// Recording a result leads from a well-formed session to a well-formed one.
pub proof fn recording_keeps_well_formed(session: SessionView, data: JsonTree)
    requires
        session.well_formed(),
    ensures
        session.record(data).0.well_formed(),
{
    let next = session.record(data).0;
    let id = words::result_segment(data);
    if words::result_text(data).len() > 0 {
        assert(segments::combined(next.finals, next.partials).dom().contains(id));
    }
}

proof fn lemma_receive_keeps_well_formed(
    session: SessionView,
    event: SocketEventView,
    elapsed_ms: Option<u64>,
)
    requires
        session.well_formed(),
    ensures
        session.receive(event, elapsed_ms).0.well_formed(),
{
    audio::chunks_are_full_frames(session.buffered());
    match event {
        SocketEventView::Text(text) => {
            if let Some(message) = crate::json::json_text(text) {
                if let Some(data) = message.text_at("data"@) {
                    if let Some(data) = crate::json::json_text(data) {
                        recording_keeps_well_formed(session, data);
                    }
                }
            }
        },
        _ => {},
    }
}

/// Accepting a session leaves a well-formed one.
pub proof fn accepting_keeps_well_formed(session: SessionView)
    requires
        session.well_formed(),
    ensures
        session.accepted().0.well_formed(),
{
    audio::chunks_are_full_frames(session.buffered());
}

/// One step leads from a well-formed session to a well-formed one.
pub proof fn step_keeps_well_formed(session: SessionView, step: SessionStep)
    requires
        session.well_formed(),
    ensures
        after_step(session, step).well_formed(),
{
    match step {
        SessionStep::Connected => {
            assert(segments::combined(Map::empty(), Map::empty()).dom() =~= Set::<i64>::empty());
        },
        SessionStep::Pcm(pcm) => {
            audio::chunks_are_full_frames(session.scratch + pcm);
        },
        SessionStep::Socket(event, elapsed_ms) => {
            lemma_receive_keeps_well_formed(session, event, elapsed_ms);
        },
        _ => {},
    }
}

/// Every session that comes about is well-formed.
pub proof fn every_session_is_well_formed(
    credentials: CredentialsView,
    steps: Seq<SessionStep>,
)
    ensures
        after(SessionView::fresh(credentials), steps).well_formed(),
    decreases steps.len(),
{
    if steps.len() == 0 {
        assert(segments::combined(Map::empty(), Map::empty()).dom() =~= Set::<i64>::empty());
    } else {
        every_session_is_well_formed(credentials, steps.drop_last());
        step_keeps_well_formed(
            after(SessionView::fresh(credentials), steps.drop_last()),
            steps.last(),
        );
    }
}

proof fn lemma_audio_of_frames(frames: Seq<Seq<u8>>)
    ensures
        audio_among(Seq::new(frames.len(), |i: int| SendItemView::Audio(frames[i]))) == frames,
    decreases frames.len(),
{
    let items = Seq::new(frames.len(), |i: int| SendItemView::Audio(frames[i]));
    if frames.len() > 0 {
        let earlier = frames.drop_last();
        lemma_audio_of_frames(earlier);
        assert(items.drop_last() =~= Seq::new(
            earlier.len(),
            |i: int| SendItemView::Audio(earlier[i]),
        ));
        assert(frames =~= earlier.push(frames.last()));
    } else {
        assert(audio_among(items) =~= frames);
    }
}

/// The frames among the items that end the audio are all frames of the audio still held back.
pub proof fn closing_items_hold_the_last_frames(session: SessionView)
    ensures
        audio_among(session.closing_items()) == session.last_frames(),
{
    let frames = session.last_frames();
    lemma_audio_of_frames(frames);
    assert(session.closing_items().drop_last() =~= Seq::new(
        frames.len(),
        |i: int| SendItemView::Audio(frames[i]),
    ));
}

proof fn lemma_step_conserves_audio(session: SessionView, step: SessionStep)
    requires
        session.well_formed(),
        !(step is Connected),
        after_step(session, step).sending,
    ensures
        session.sending,
        frames_of_step(session, step).flatten() + after_step(session, step).buffered()
            == session.buffered() + audio_of_step(step),
{
    let next = after_step(session, step);
    let frames = frames_of_step(session, step);
    assert(Seq::<Seq<u8>>::empty().flatten() =~= Seq::<u8>::empty());
    audio::chunks_and_tail_are_the_buffer(session.buffered());
    match step {
        SessionStep::Pcm(pcm) => {
            audio::chunks_and_tail_are_the_buffer(session.scratch + pcm);
            assert(session.started ==> session.buffered() =~= session.scratch);
            assert(frames.flatten() + next.buffered() =~= session.buffered() + pcm);
        },
        SessionStep::LastFrame(event) => {
            let tail = audio::audio_tail(session.buffered());
            let whole = audio::audio_chunks(session.buffered());
            closing_items_hold_the_last_frames(session);
            if session.send_last_frame(event).1 is Send {
                whole.lemma_flatten_push(tail);
                assert(session.last_frames() =~= if tail.len() == 0 {
                    whole
                } else {
                    whole.push(tail)
                });
            }
            assert(frames.flatten() + next.buffered() =~= session.buffered() + Seq::<u8>::empty());
        },
        _ => {
            assert(frames.flatten() + next.buffered() =~= session.buffered() + Seq::<u8>::empty());
        },
    }
}

/// No byte of audio is lost, repeated or reordered while there is a queue to the service: what
/// was handed to the queue, and then what is still held back, is what was held back at first, and
/// then what was brought.
pub proof fn no_audio_is_lost(session: SessionView, steps: Seq<SessionStep>)
    requires
        session.well_formed(),
        one_session(steps),
        after(session, steps).sending,
    ensures
        bytes_sent(session, steps) + after(session, steps).buffered() == session.buffered()
            + bytes_brought(steps),
        after(session, steps).well_formed(),
    decreases steps.len(),
{
    if steps.len() == 0 {
        assert(Seq::<u8>::empty() + session.buffered() =~= session.buffered() + Seq::<u8>::empty());
    } else {
        let earlier = steps.drop_last();
        let before = after(session, earlier);
        lemma_runs_are_well_formed(session, earlier);
        assert(one_session(earlier));
        assert(!(steps[steps.len() - 1] is Connected));
        lemma_step_conserves_audio(before, steps.last());
        no_audio_is_lost(session, earlier);
        step_keeps_well_formed(before, steps.last());
        assert(bytes_sent(session, steps) + after(session, steps).buffered() =~= bytes_sent(
            session,
            earlier,
        ) + (frames_of_step(before, steps.last()).flatten() + after_step(
            before,
            steps.last(),
        ).buffered()));
        assert(bytes_sent(session, steps) + after(session, steps).buffered() =~= (
        session.buffered() + bytes_brought(earlier)) + audio_of_step(steps.last()));
    }
}

proof fn lemma_runs_are_well_formed(session: SessionView, steps: Seq<SessionStep>)
    requires
        session.well_formed(),
    ensures
        after(session, steps).well_formed(),
    decreases steps.len(),
{
    if steps.len() > 0 {
        lemma_runs_are_well_formed(session, steps.drop_last());
        step_keeps_well_formed(after(session, steps.drop_last()), steps.last());
    }
}

/// Once the end of the audio is sent, the queue has got exactly the audio that came since the
/// connection stood, the last bytes that fill no frame among it.
pub proof fn end_of_audio_sends_everything(earlier: SessionView, steps: Seq<SessionStep>)
    requires
        one_session(steps),
        steps.len() > 0,
        steps.last() matches SessionStep::LastFrame(event) && after(
            earlier.connected(),
            steps.drop_last(),
        ).send_last_frame(event).1 is Send,
    ensures
        bytes_sent(earlier.connected(), steps) == bytes_brought(steps),
{
    let session = earlier.connected();
    assert(segments::combined(session.finals, session.partials).dom() =~= Set::<i64>::empty());
    no_audio_is_lost(session, steps);
    assert(after(session, steps).buffered() =~= Seq::<u8>::empty());
    assert(bytes_sent(session, steps) =~= bytes_sent(session, steps) + after(
        session,
        steps,
    ).buffered());
    assert(bytes_brought(steps) =~= session.buffered() + bytes_brought(steps));
}

/// The end marker is the last thing that goes to the queue when the audio ends, and it goes there
/// once; before it comes the audio that is still held back.
pub proof fn end_marker_comes_last(session: SessionView)
    ensures
        session.closing_items().len() == session.last_frames().len() + 1,
        session.closing_items().last() == SendItemView::Finish,
        forall|i: int|
            0 <= i < session.last_frames().len() ==> #[trigger] session.closing_items()[i]
                == SendItemView::Audio(session.last_frames()[i]),
{
}

/// Nothing goes to the queue before the service accepts the session: audio is kept, and the end
/// of the audio waits, unless the session is over or whoever waits is told to go on.
pub proof fn nothing_is_sent_before_the_session_is_accepted(
    session: SessionView,
    step: SessionStep,
)
    requires
        !session.started,
        !session.finished,
        step != SessionStep::LastFrame(LastFrameEventView::HandshakeSeen),
        !after_step(session, step).started,
    ensures
        frames_of_step(session, step).len() == 0,
        step matches SessionStep::LastFrame(event) ==> !(session.send_last_frame(event).1 is Send),
        session.send_last_frame(LastFrameEventView::Begin) == (
            session,
            LastFrameStepView::AwaitHandshake,
        ),
{
}

/// Every frame that goes to the queue has between one byte and the recommended size, and it has
/// exactly that size unless the audio ends with it.
pub proof fn frames_have_the_recommended_size(session: SessionView, step: SessionStep, i: int)
    requires
        0 <= i < frames_of_step(session, step).len(),
    ensures
        0 < frames_of_step(session, step)[i].len() <= TARGET_AUDIO_CHUNK_BYTES,
        frames_of_step(session, step)[i].len() < TARGET_AUDIO_CHUNK_BYTES ==> step is LastFrame && i
            == frames_of_step(session, step).len() - 1,
{
    audio::chunks_are_full_frames(session.buffered());
    closing_items_hold_the_last_frames(session);
    match step {
        SessionStep::Pcm(pcm) => {
            audio::chunks_are_full_frames(session.scratch + pcm);
        },
        _ => {},
    }
}

/// A session delivers at most one outcome, and none where it is over or its outcome was delivered
/// before.
pub proof fn at_most_one_outcome(session: SessionView, steps: Seq<SessionStep>)
    requires
        one_session(steps),
    ensures
        outcomes_delivered(session, steps) <= 1,
        outcomes_delivered(session, steps) == 1 ==> session.promised && !session.finished,
        outcomes_delivered(session, steps) == 1 ==> after(session, steps).finished,
        session.finished ==> after(session, steps).finished,
        after(session, steps).promised ==> session.promised,
    decreases steps.len(),
{
    if steps.len() > 0 {
        let earlier = steps.drop_last();
        assert(one_session(earlier));
        assert(!(steps[steps.len() - 1] is Connected));
        at_most_one_outcome(session, earlier);
    }
}

/// A session that is over stays as it is whatever comes to end it, and answers with nothing: a
/// connection that closes or fails, or an error message of the service.
pub proof fn finished_session_ignores_another_end(
    session: SessionView,
    why: Seq<char>,
    message: JsonTree,
    elapsed_ms: Option<u64>,
)
    requires
        session.finished,
    ensures
        session.receive(SocketEventView::Closed, elapsed_ms) == (
            session,
            false,
            ReactionView::Ignored,
        ),
        session.receive(SocketEventView::Failed(why), elapsed_ms) == (
            session,
            false,
            ReactionView::Ignored,
        ),
        message.text_at("action"@) == Some("error"@) ==> session.handle(message) == (
            session,
            false,
            ReactionView::Ignored,
        ),
{
    server_error_is_passed_on(session, message);
}

/// A session that was given up hands no frame to the queue and delivers no outcome any more, and
/// whoever begins to send the end of its audio, or waits to, is done at once.
pub proof fn cancelled_session_is_silent(session: SessionView, steps: Seq<SessionStep>)
    requires
        one_session(steps),
    ensures
        bytes_sent(session.cancelled(), steps).len() == 0,
        outcomes_delivered(session.cancelled(), steps) == 0,
        after(session.cancelled(), steps).send_last_frame(LastFrameEventView::Begin).1
            == LastFrameStepView::Done(Ok(())),
        after(session.cancelled(), steps).send_last_frame(LastFrameEventView::HandshakeSeen).1
            == LastFrameStepView::Done(Ok(())),
    decreases steps.len(),
{
    at_most_one_outcome(session.cancelled(), steps);
    lemma_closed_queue_stays_closed(session.cancelled(), steps);
    if steps.len() > 0 {
        let earlier = steps.drop_last();
        assert(one_session(earlier));
        assert(!(steps[steps.len() - 1] is Connected));
        cancelled_session_is_silent(session, earlier);
        lemma_closed_queue_stays_closed(session.cancelled(), earlier);
        let frames = frames_of_step(after(session.cancelled(), earlier), steps.last());
        assert(frames.len() == 0);
    }
}

proof fn lemma_closed_queue_stays_closed(session: SessionView, steps: Seq<SessionStep>)
    requires
        one_session(steps),
        !session.sending,
    ensures
        !after(session, steps).sending,
    decreases steps.len(),
{
    if steps.len() > 0 {
        let earlier = steps.drop_last();
        assert(one_session(earlier));
        assert(!(steps[steps.len() - 1] is Connected));
        lemma_closed_queue_stays_closed(session, earlier);
    }
}

proof fn lemma_in_order_holds(table: Map<i64, Seq<char>>, id: i64) -> (at: int)
    requires
        table.dom().finite(),
        table.contains_key(id),
    ensures
        0 <= at < segments::in_id_order(table).len(),
        segments::in_id_order(table)[at] == table[id],
    decreases table.dom().len(),
{
    lemma_least_exists(table.dom());
    let first = choose|first: i64| segments::is_least(table.dom(), first);
    if first == id {
        0
    } else {
        let at = lemma_in_order_holds(table.remove(first), id);
        at + 1
    }
}

proof fn lemma_least_exists(ids: Set<i64>)
    requires
        ids.finite(),
        exists|id: i64| ids.contains(id),
    ensures
        exists|id: i64| segments::is_least(ids, id),
    decreases ids.len(),
{
    let some = choose|id: i64| ids.contains(id);
    assert(ids.contains(some));
    let rest = ids.remove(some);
    if exists|id: i64| rest.contains(id) {
        lemma_least_exists(rest);
        let least = choose|id: i64| segments::is_least(rest, id);
        if some < least {
            assert(segments::is_least(ids, some));
        } else {
            assert(segments::is_least(ids, least));
        }
    } else {
        assert(segments::is_least(ids, some));
    }
}

/// Nothing that was recognised is left out of the transcript: the text of every segment, the
/// final one or else the interim one, stands in it in one piece.
pub proof fn every_segment_reaches_the_transcript(
    session: SessionView,
    id: i64,
    elapsed_ms: Option<u64>,
)
    requires
        session.well_formed(),
        segments::combined(session.finals, session.partials).contains_key(id),
    ensures
        segments::occurs_in(
            segments::combined(session.finals, session.partials)[id],
            session.transcript(elapsed_ms).text,
        ),
{
    let table = segments::combined(session.finals, session.partials);
    assert(table.dom() =~= session.finals.dom().union(session.partials.dom()));
    let at = lemma_in_order_holds(table, id);
    assert(table.dom().contains(id));
    assert(table.dom() != Set::<i64>::empty());
    segments::every_segment_is_kept(segments::in_id_order(table), at);
}

/// A segment keeps its final text until another final text comes for it: an interim result never
/// displaces it, and a final one displaces only that of its own segment.
pub proof fn final_text_stays(session: SessionView, data: JsonTree, id: i64)
    requires
        session.finals.contains_key(id),
        words::result_is_final(data) ==> words::result_segment(data) != id,
    ensures
        session.record(data).0.finals.contains_key(id),
        segments::combined(session.record(data).0.finals, session.record(data).0.partials)[id]
            == session.finals[id],
{
}

/// A segment that has a text never loses it altogether while the session lasts.
pub proof fn segments_never_vanish(session: SessionView, steps: Seq<SessionStep>, id: i64)
    requires
        one_session(steps),
        segments::combined(session.finals, session.partials).contains_key(id),
    ensures
        segments::combined(
            after(session, steps).finals,
            after(session, steps).partials,
        ).contains_key(id),
    decreases steps.len(),
{
    if steps.len() > 0 {
        let earlier = steps.drop_last();
        assert(one_session(earlier));
        assert(!(steps[steps.len() - 1] is Connected));
        segments_never_vanish(session, earlier, id);
    }
}

/// A result with a text can be read back at once: the transcript holds that text, unless the
/// segment has a final text and the result is only an interim one.
pub proof fn recorded_text_is_in_the_transcript(
    session: SessionView,
    data: JsonTree,
    elapsed_ms: Option<u64>,
)
    requires
        session.well_formed(),
        words::result_text(data).len() > 0,
        words::result_is_final(data) || !session.finals.contains_key(words::result_segment(data)),
    ensures
        segments::occurs_in(
            words::result_text(data),
            session.record(data).0.transcript(elapsed_ms).text,
        ),
{
    recording_keeps_well_formed(session, data);
    every_segment_reaches_the_transcript(
        session.record(data).0,
        words::result_segment(data),
        elapsed_ms,
    );
}

/// A result without a text, such as a heartbeat, changes nothing and wakes nobody.
pub proof fn result_without_text_changes_nothing(session: SessionView, data: JsonTree)
    requires
        words::result_text(data).len() == 0,
    ensures
        session.record(data) == (session, false),
{
}

/// There is something to return exactly when some text was ever stored.
pub proof fn there_is_a_text_once_one_was_stored(session: SessionView)
    requires
        session.well_formed(),
    ensures
        session.best_text() is Some <==> session.last_text.len() > 0,
        session.best_text() is Some <==> segments::combined(
            session.finals,
            session.partials,
        ).dom() != Set::<i64>::empty(),
{
}

/// Whether the connection ends or the service falls silent, the same transcript is returned.
pub proof fn silence_and_closing_agree(session: SessionView, elapsed_ms: Option<u64>)
    requires
        session.best_text() is Some,
        session.promised,
        !session.finished,
    ensures
        session.receive(SocketEventView::Closed, elapsed_ms).2 == ReactionView::Closed(
            Some(Ok(session.transcript(elapsed_ms))),
        ),
        session.await_final_result(WaitEventView::Silence, elapsed_ms).1 == (WaitStepView::Done {
            close: true,
            outcome: Ok(session.transcript(elapsed_ms)),
        }),
{
}

/// Whoever waits for an outcome may do so once per connection; a second attempt fails at once.
pub proof fn outcome_is_waited_for_once(
    session: SessionView,
    steps: Seq<SessionStep>,
    elapsed_ms: Option<u64>,
)
    requires
        one_session(steps),
    ensures
        after(
            session.await_final_result(WaitEventView::Begin, elapsed_ms).0,
            steps,
        ).await_final_result(WaitEventView::Begin, elapsed_ms).1 == (WaitStepView::Done {
            close: false,
            outcome: Err(ErrorView::NoFinalResult),
        }),
    decreases steps.len(),
{
    lemma_taken_stays_taken(session.await_final_result(WaitEventView::Begin, elapsed_ms).0, steps);
}

proof fn lemma_taken_stays_taken(session: SessionView, steps: Seq<SessionStep>)
    requires
        one_session(steps),
        !session.receivable,
    ensures
        !after(session, steps).receivable,
    decreases steps.len(),
{
    if steps.len() > 0 {
        let earlier = steps.drop_last();
        assert(one_session(earlier));
        assert(!(steps[steps.len() - 1] is Connected));
        lemma_taken_stays_taken(session, earlier);
    }
}

/// Only an error message ends the reading of messages, and it is answered with the code and the
/// description that the service gave, where an outcome can still be delivered.
pub proof fn server_error_is_passed_on(session: SessionView, message: JsonTree)
    ensures
        !session.handle(message).1 <==> message.text_at("action"@) == Some("error"@),
        message.text_at("action"@) == Some("error"@) && session.promised && !session.finished
            ==> session.handle(message).2 == ReactionView::Closed(
            Some(
                Err(
                    ErrorView::ServerError {
                        code: match message.text_at("code"@) {
                            Some(code) => code,
                            None => Seq::empty(),
                        },
                        desc: match message.text_at("desc"@) {
                            Some(desc) => desc,
                            None => "unknown error"@,
                        },
                    },
                ),
            ),
        ),
{
    reveal_strlit("started");
    reveal_strlit("result");
    reveal_strlit("error");
    assert("started"@.len() != "error"@.len());
    assert("result"@.len() != "error"@.len());
}

} // verus!
