//! What each thing that happens to a session does, in whatever state the session is.

use crate::audio;
use crate::clock;
use crate::error::ErrorView;
use crate::json;
use crate::json::JsonTree;
use crate::laws;
use crate::protocol;
use crate::protocol::{
    LastFrameEventView, LastFrameStepView, OpenEventView, OpenStepView, Outcome, ReactionView,
    SendItemView, SessionView, SocketEventView, TranscriptView, WaitEventView, WaitStepView,
};
use crate::segments;
use crate::signing::CredentialsView;
use crate::text;
use crate::words;
use std::time::SystemTime;
use vstd::prelude::*;
use vstd::utf8;

verus! {

/// A text with a character that is no white space.
pub open spec fn says_something(text: Seq<char>) -> bool {
    exists|i: int| 0 <= i < text.len() && !text::white_space(#[trigger] text[i])
}

/// Something was recognised: a segment has a text, or there is a last text that says something.
pub open spec fn something_recognised(session: SessionView) -> bool {
    ||| exists|id: i64| #[trigger] session.finals.contains_key(id)
    ||| exists|id: i64| #[trigger] session.partials.contains_key(id)
    ||| says_something(session.last_text)
}

proof fn lemma_blank(s: Seq<char>)
    ensures
        text::trimmed(s).len() == 0 <==> !says_something(s),
{
    text::blank_text_is_all_white_space(s);
}

proof fn lemma_recognised(session: SessionView)
    ensures
        session.best_text() is Some <==> something_recognised(session),
{
    let all = segments::combined(session.finals, session.partials);
    lemma_blank(session.last_text);
    if all.dom() != Set::<i64>::empty() {
        assert(exists|id: i64| all.dom().contains(id)) by {
            if forall|id: i64| !all.dom().contains(id) {
                assert(all.dom() =~= Set::<i64>::empty());
            }
        }
        let id = choose|id: i64| all.dom().contains(id);
        assert(session.finals.contains_key(id) || session.partials.contains_key(id));
    } else {
        assert forall|id: i64|
            !session.finals.contains_key(id) && !session.partials.contains_key(id) by {
            assert(!all.dom().contains(id));
        }
    }
}

/// A new session has nothing: no audio, no text, no queue and no outcome to wait for.
pub proof fn new_session_has_nothing(credentials: CredentialsView)
    ensures
        ({
            let session = SessionView::fresh(credentials);
            &&& session.credentials == credentials
            &&& !session.started && !session.finished
            &&& session.pending.len() == 0 && session.scratch.len() == 0
            &&& session.bytes_received == 0
            &&& !session.sending && !session.promised && !session.receivable
            &&& forall|id: i64| !session.finals.contains_key(id)
            &&& forall|id: i64| !session.partials.contains_key(id)
            &&& session.last_text.len() == 0
        }),
{
}

/// Whatever a session went through, once a connection stands it is as new but for its queue and
/// its outcome: neither audio nor text nor an earlier end is left of what was before.
pub proof fn connection_begins_anew(
    session: SessionView,
    after: SessionView,
    step: OpenStepView,
)
    requires
        session.opens(OpenEventView::Connected, after, step),
    ensures
        step == OpenStepView::Done(Ok(())),
        after.credentials == session.credentials,
        !after.started && !after.finished,
        after.pending.len() == 0 && after.scratch.len() == 0,
        after.bytes_received == 0,
        after.sending && after.promised && after.receivable,
        forall|id: i64| !after.finals.contains_key(id),
        forall|id: i64| !after.partials.contains_key(id),
        after.last_text.len() == 0,
        after == laws::after_step(session, laws::SessionStep::Connected),
{
}

/// A session whose id or key is white space throughout is not opened.
pub proof fn opening_needs_credentials(
    session: SessionView,
    after: SessionView,
    step: OpenStepView,
)
    requires
        session.opens(OpenEventView::Begin, after, step),
        !says_something(session.credentials.app_id) || !says_something(session.credentials.api_key),
    ensures
        after == session,
        step == OpenStepView::Done(Err(ErrorView::CredentialsMissing)),
{
    lemma_blank(session.credentials.app_id);
    lemma_blank(session.credentials.api_key);
}

/// A session with an id and a key asks for a connection to its signed address, unless the clock
/// shows a time before the epoch; asking changes nothing in the session.
pub proof fn opening_asks_for_the_signed_address(
    session: SessionView,
    after: SessionView,
    step: OpenStepView,
)
    requires
        session.opens(OpenEventView::Begin, after, step),
        says_something(session.credentials.app_id),
        says_something(session.credentials.api_key),
    ensures
        after == session,
        match step {
            OpenStepView::Connect(url) => exists|now: SystemTime, ts: u64|
                #![trigger clock::epoch_seconds(now), session.credentials.session_url(ts)]
                clock::epoch_seconds(now) == Some(ts) && url == session.credentials.session_url(ts),
            OpenStepView::Done(Err(ErrorView::SignaFailed(_))) => exists|now: SystemTime|
                (#[trigger] clock::epoch_seconds(now)) is None,
            _ => false,
        },
{
    lemma_blank(session.credentials.app_id);
    lemma_blank(session.credentials.api_key);
}

/// A connection that fails is reported with its reason and leaves the session as it is.
pub proof fn failed_connection_is_reported(
    session: SessionView,
    why: Seq<char>,
    after: SessionView,
    step: OpenStepView,
)
    requires
        session.opens(OpenEventView::Failed(why), after, step),
    ensures
        after == session,
        step == OpenStepView::Done(Err(ErrorView::ConnectionFailed(why))),
{
}

/// An address is connected to as it is, and a failure is passed on in words.
pub proof fn address_is_connected_to(url: Seq<char>, error: ErrorView)
    ensures
        protocol::connect_answer(Ok(url)) == OpenStepView::Connect(url),
        protocol::connect_answer(Err(error)) == OpenStepView::Done(
            Err(ErrorView::SignaFailed(error.message())),
        ),
{
}

/// Frames go over the connection as they are, and the end of the audio as `{"end":true}`.
pub proof fn frames_go_out_as_they_are(frame: Seq<u8>)
    ensures
        protocol::wire_bytes(SendItemView::Audio(frame)) == frame,
        protocol::wire_bytes(SendItemView::Finish) == utf8::encode_utf8("{\"end\":true}"@),
{
}

/// All audio is counted, and the count stops at the largest number there is.
pub proof fn audio_is_counted(session: SessionView, pcm: Seq<u8>)
    ensures
        session.bytes_received + pcm.len() <= u64::MAX ==> session.consume(pcm).0.bytes_received
            == session.bytes_received + pcm.len(),
        session.bytes_received + pcm.len() > u64::MAX ==> session.consume(pcm).0.bytes_received
            == u64::MAX,
{
}

/// Before the service accepts the session audio is put behind the audio that waits, and nothing
/// else happens.
pub proof fn early_audio_waits(session: SessionView, pcm: Seq<u8>)
    requires
        !session.started,
    ensures
        session.consume(pcm).1.len() == 0,
        session.consume(pcm).0 == (SessionView {
            pending: session.pending + pcm,
            bytes_received: session.consume(pcm).0.bytes_received,
            ..session
        }),
{
    assert(session.pending + Seq::<u8>::empty() =~= session.pending);
    if pcm.len() == 0 {
        assert(pcm =~= Seq::empty());
    }
}

/// Afterwards the frames that it fills go to the queue, and the rest, less than a frame, stays:
/// both together are what stayed before and then the new audio. Without a queue the frames are
/// dropped. Nothing else changes.
pub proof fn audio_is_cut_into_frames(session: SessionView, pcm: Seq<u8>)
    requires
        session.started,
        pcm.len() > 0,
    ensures
        ({
            let (after, frames) = session.consume(pcm);
            let all = session.scratch + pcm;
            &&& after == (SessionView {
                scratch: after.scratch,
                bytes_received: after.bytes_received,
                ..session
            })
            &&& after.scratch.len() == all.len() % 1280
            &&& after.scratch == all.skip(all.len() - after.scratch.len())
            &&& session.sending ==> frames.flatten() + after.scratch == all
            &&& !session.sending ==> frames.len() == 0
            &&& forall|i: int| 0 <= i < frames.len() ==> (#[trigger] frames[i]).len() == 1280
        }),
{
    let all = session.scratch + pcm;
    audio::chunks_and_tail_are_the_buffer(all);
    audio::chunks_are_full_frames(all);
}

/// No audio changes nothing.
pub proof fn no_audio_changes_nothing(session: SessionView)
    ensures
        session.consume(Seq::empty()).0 == session,
        session.consume(Seq::empty()).1.len() == 0,
{
}

/// When the service accepts the session, the audio that waited goes on its way behind what was
/// there: whole frames to the queue, and the rest stays. Nothing else changes.
pub proof fn accepting_releases_the_audio(session: SessionView)
    ensures
        ({
            let (after, frames) = session.accepted();
            let all = session.scratch + session.pending;
            &&& after == (SessionView {
                started: true,
                pending: Seq::empty(),
                scratch: after.scratch,
                ..session
            })
            &&& after.scratch.len() == all.len() % 1280
            &&& after.scratch == all.skip(all.len() - after.scratch.len())
            &&& session.sending ==> frames.flatten() + after.scratch == all
            &&& !session.sending ==> frames.len() == 0
            &&& forall|i: int| 0 <= i < frames.len() ==> (#[trigger] frames[i]).len() == 1280
        }),
{
    let all = session.scratch + session.pending;
    audio::chunks_and_tail_are_the_buffer(all);
    audio::chunks_are_full_frames(all);
}

/// The audio ends: the session may go on where the service accepted it or it is over, or where
/// whoever waited for that is told so.
pub open spec fn may_end_audio(session: SessionView, event: LastFrameEventView) -> bool {
    event == LastFrameEventView::HandshakeSeen || (event == LastFrameEventView::Begin && (
    session.started || session.finished))
}

/// Where there is a queue, the end of the audio sends items whose frames, one after the other,
/// are all the audio that was held back, and whose last one, and only that, is the end marker.
/// Every frame but the last is a whole one, and none is empty.
pub proof fn end_of_audio_is_all_that_is_left(session: SessionView, event: LastFrameEventView)
    requires
        may_end_audio(session, event),
        session.sending,
    ensures
        session.send_last_frame(event).1 matches LastFrameStepView::Send(items) && {
            &&& items.len() > 0
            &&& items.last() == SendItemView::Finish
            &&& forall|i: int| 0 <= i < items.len() - 1 ==> (#[trigger] items[i]) is Audio
            &&& laws::audio_among(items).flatten() == session.scratch + session.pending
            &&& laws::audio_among(items).len() == items.len() - 1
            &&& forall|i: int|
                0 <= i < items.len() - 2 ==> ((#[trigger] items[i]) matches SendItemView::Audio(
                    frame,
                ) && frame.len() == 1280)
            &&& forall|i: int|
                0 <= i < items.len() - 1 ==> ((#[trigger] items[i]) matches SendItemView::Audio(
                    frame,
                ) && 0 < frame.len() <= 1280)
        },
{
    let all = session.buffered();
    let tail = audio::audio_tail(all);
    let whole = audio::audio_chunks(all);
    laws::closing_items_hold_the_last_frames(session);
    audio::chunks_and_tail_are_the_buffer(all);
    audio::chunks_are_full_frames(all);
    whole.lemma_flatten_push(tail);
    assert(session.last_frames() =~= if tail.len() == 0 {
        whole
    } else {
        whole.push(tail)
    });
    assert(session.last_frames().flatten() =~= all);
}

/// Every answer that sends items follows on an end of the audio that may go on, over a queue.
pub proof fn items_are_sent_at_the_end_only(session: SessionView, event: LastFrameEventView)
    requires
        session.send_last_frame(event).1 is Send,
    ensures
        may_end_audio(session, event),
        session.sending,
{
}

/// Once the end of the audio goes on, no audio is held back any more and nothing else changed;
/// without a queue there is nothing left to do.
pub proof fn end_of_audio_empties_the_buffers(session: SessionView, event: LastFrameEventView)
    requires
        may_end_audio(session, event),
    ensures
        session.send_last_frame(event).0 == (SessionView {
            pending: Seq::empty(),
            scratch: Seq::empty(),
            ..session
        }),
        !session.sending ==> session.send_last_frame(event).1 == LastFrameStepView::Done(Ok(())),
{
}

/// Before the service accepts the session, and while it is not over, the end of the audio waits
/// and leaves all audio where it is.
pub proof fn end_of_audio_waits_for_the_service(session: SessionView)
    requires
        !session.started,
        !session.finished,
    ensures
        session.send_last_frame(LastFrameEventView::Begin) == (
            session,
            LastFrameStepView::AwaitHandshake,
        ),
{
}

/// How sending the end of the audio ends, in every state: with a timeout where the service does
/// not accept the session, with an error where the queue or the word of it is gone, and well
/// where word came. The session stays as it is.
pub proof fn end_of_audio_ends(session: SessionView)
    ensures
        session.send_last_frame(LastFrameEventView::HandshakeTimedOut) == (
            session,
            LastFrameStepView::Done(Err(ErrorView::FinalResultTimeout)),
        ),
        session.send_last_frame(LastFrameEventView::QueueClosed) == (
            session,
            LastFrameStepView::Done(Err(ErrorView::ConnectionFailed("send worker closed"@))),
        ),
        session.send_last_frame(LastFrameEventView::AckDropped) == (
            session,
            LastFrameStepView::Done(Err(ErrorView::ConnectionFailed("finish ack dropped"@))),
        ),
        session.send_last_frame(LastFrameEventView::Acknowledged) == (
            session,
            LastFrameStepView::Done(Ok(())),
        ),
{
}

/// A final result stands under its segment from then on, and its interim text is gone; all other
/// segments, and all else, stay as they were.
pub proof fn final_result_is_stored(session: SessionView, data: JsonTree)
    requires
        words::result_text(data).len() > 0,
        words::result_is_final(data),
    ensures
        ({
            let (after, stored) = session.record(data);
            let id = words::result_segment(data);
            &&& stored
            &&& after.finals.contains_key(id) && after.finals[id] == words::result_text(data)
            &&& !after.partials.contains_key(id)
            &&& after.last_text == words::result_text(data)
            &&& forall|other: i64|
                other != id ==> (#[trigger] after.finals.contains_key(other)
                    <==> session.finals.contains_key(other)) && after.finals[other]
                    == session.finals[other]
            &&& forall|other: i64|
                other != id ==> (#[trigger] after.partials.contains_key(other)
                    <==> session.partials.contains_key(other)) && after.partials[other]
                    == session.partials[other]
            &&& after == (SessionView {
                finals: after.finals,
                partials: after.partials,
                last_text: after.last_text,
                ..session
            })
        }),
{
}

/// An interim result stands under its segment among the interim texts; the final texts, all other
/// segments, and all else stay as they were.
pub proof fn interim_result_is_stored(session: SessionView, data: JsonTree)
    requires
        words::result_text(data).len() > 0,
        !words::result_is_final(data),
    ensures
        ({
            let (after, stored) = session.record(data);
            let id = words::result_segment(data);
            &&& stored
            &&& after.partials.contains_key(id) && after.partials[id] == words::result_text(data)
            &&& after.last_text == words::result_text(data)
            &&& forall|other: i64|
                other != id ==> (#[trigger] after.partials.contains_key(other)
                    <==> session.partials.contains_key(other)) && after.partials[other]
                    == session.partials[other]
            &&& after == (SessionView {
                partials: after.partials,
                last_text: after.last_text,
                ..session
            })
        }),
{
}

/// A message of the service that says `action`.
pub open spec fn says(message: JsonTree, action: Seq<char>) -> bool {
    message.get("action"@) == Some(JsonTree::Str(action))
}

/// In every state of a session a text from the connection is read as JSON and handled as the
/// message that it is; one that is no JSON is passed over, and more is read.
pub proof fn text_is_handled_as_a_message(
    session: SessionView,
    text: Seq<char>,
    elapsed_ms: Option<u64>,
)
    ensures
        session.receive(SocketEventView::Text(text), elapsed_ms) == session.handle_text(text),
        json::json_text(text) matches Some(message) ==> session.handle_text(text)
            == session.handle(message),
        json::json_text(text) is None ==> session.handle_text(text) == (
            session,
            true,
            ReactionView::Ignored,
        ),
{
}

/// In every state of a session a message that the session is accepted accepts it: the frames that
/// it releases are to be queued, and more is read.
pub proof fn started_message_accepts_the_session(session: SessionView, message: JsonTree)
    requires
        says(message, "started"@),
    ensures
        session.handle(message).0 == session.accepted().0,
        session.handle(message).1,
        session.handle(message).2 == ReactionView::Started(session.accepted().1),
        session.handle(message).0.started,
{
}

/// In every state of a session a result message with code `0` whose data is the JSON text of a
/// result with a text is stored: the text stands under its segment, among the final texts where
/// the result is final and else among the interim ones, and more is read.
pub proof fn result_message_is_stored(
    session: SessionView,
    message: JsonTree,
    payload: Seq<char>,
    data: JsonTree,
)
    requires
        says(message, "result"@),
        message.get("code"@) == Some(JsonTree::Str("0"@)),
        message.get("data"@) == Some(JsonTree::Str(payload)),
        json::json_text(payload) == Some(data),
        words::result_text(data).len() > 0,
    ensures
        ({
            let (after, read_on, reaction) = session.handle(message);
            let id = words::result_segment(data);
            let text = words::result_text(data);
            &&& read_on
            &&& reaction == ReactionView::Stored
            &&& words::result_is_final(data) ==> after.finals.contains_key(id) && after.finals[id]
                == text && !after.partials.contains_key(id)
            &&& !words::result_is_final(data) ==> after.partials.contains_key(id)
                && after.partials[id] == text && after.finals == session.finals
            &&& after.last_text == text
            &&& after == session.record(data).0
            &&& session.record_message(message) == (after, true)
        }),
{
    reveal_strlit("started");
    reveal_strlit("result");
    assert("started"@.len() != "result"@.len());
}

/// A result message that holds no result with a text changes nothing: without data, with data
/// that is no JSON, or with a result that has no text.
pub proof fn result_message_without_text_is_passed_over(session: SessionView, message: JsonTree)
    requires
        says(message, "result"@),
        message.get("data"@) matches Some(JsonTree::Str(payload)) ==> (json::json_text(
            payload,
        ) matches Some(data) ==> words::result_text(data).len() == 0),
    ensures
        session.handle(message) == (session, true, ReactionView::Ignored),
        session.record_message(message) == (session, false),
{
    reveal_strlit("started");
    reveal_strlit("result");
    reveal_strlit("error");
    assert("started"@.len() != "result"@.len());
    assert("error"@.len() != "result"@.len());
}

/// A result message with another code than `0`, or without one, changes nothing.
pub proof fn failed_result_is_passed_over(session: SessionView, message: JsonTree)
    requires
        says(message, "result"@),
        message.get("code"@) != Some(JsonTree::Str("0"@)),
    ensures
        session.handle(message) == (session, true, ReactionView::Ignored),
{
    reveal_strlit("started");
    reveal_strlit("result");
    reveal_strlit("error");
    reveal_strlit("0");
    assert("started"@.len() != "result"@.len());
    assert("error"@.len() != "result"@.len());
    assert(Seq::<char>::empty().len() != "0"@.len());
}

/// An error message ends the session with the code and the description that it gives, and no more
/// is read; without a code that is the empty text, without a description `unknown error`.
pub proof fn error_message_ends_the_session(
    session: SessionView,
    message: JsonTree,
    code: Seq<char>,
    desc: Seq<char>,
)
    requires
        says(message, "error"@),
        match message.get("code"@) {
            Some(JsonTree::Str(given)) => code == given,
            _ => code.len() == 0,
        },
        match message.get("desc"@) {
            Some(JsonTree::Str(given)) => desc == given,
            _ => desc == "unknown error"@,
        },
        !session.finished,
    ensures
        session.handle(message).0 == (SessionView {
            finished: true,
            sending: false,
            promised: false,
            ..session
        }),
        !session.handle(message).1,
        session.handle(message).2 == ReactionView::Closed(
            if session.promised {
                Some(Err(ErrorView::ServerError { code, desc }))
            } else {
                None
            },
        ),
{
    reveal_strlit("started");
    reveal_strlit("result");
    reveal_strlit("error");
    assert("started"@.len() != "error"@.len());
    assert("result"@.len() != "error"@.len());
    if code.len() == 0 {
        assert(code =~= Seq::empty());
    }
}

/// A message of another kind changes nothing, and more is read.
pub proof fn other_messages_are_passed_over(session: SessionView, message: JsonTree)
    requires
        !says(message, "started"@),
        !says(message, "result"@),
        !says(message, "error"@),
    ensures
        session.handle(message) == (session, true, ReactionView::Ignored),
{
}

/// Other things on the connection change nothing, and more is read.
pub proof fn other_events_are_passed_over(session: SessionView, elapsed_ms: Option<u64>)
    ensures
        session.receive(SocketEventView::Other, elapsed_ms) == (
            session,
            true,
            ReactionView::Ignored,
        ),
{
}

/// Ending a session that is not over: it is over from then on, it has no queue, its outcome is
/// delivered where one is still owed, and nothing else changes.
pub proof fn ending_delivers_what_is_owed(session: SessionView, outcome: Outcome)
    requires
        !session.finished,
    ensures
        session.finish(outcome).0 == (SessionView {
            finished: true,
            sending: false,
            promised: false,
            ..session
        }),
        session.promised ==> session.finish(outcome).1 == ReactionView::Closed(Some(outcome)),
        !session.promised ==> session.finish(outcome).1 == ReactionView::Closed(None),
{
}

/// Ending a session that is over does nothing.
pub proof fn ending_twice_does_nothing(session: SessionView, outcome: Outcome)
    requires
        session.finished,
    ensures
        session.finish(outcome) == (session, ReactionView::Ignored),
{
}

/// When the connection closes or fails, a session that is not over ends: with its transcript
/// where something was recognised, and else with the reason; and no more is read.
pub proof fn end_of_the_connection_ends_the_session(
    session: SessionView,
    why: Seq<char>,
    elapsed_ms: Option<u64>,
)
    requires
        !session.finished,
    ensures
        ({
            let over = SessionView { finished: true, sending: false, promised: false, ..session };
            let transcript = Some(Ok::<TranscriptView, ErrorView>(session.transcript(elapsed_ms)));
            let (closed, failed) = if !session.promised {
                (None, None)
            } else if something_recognised(session) {
                (transcript, transcript)
            } else {
                (Some(Err(ErrorView::NoFinalResult)), Some(Err(ErrorView::ConnectionFailed(why))))
            };
            &&& session.receive(SocketEventView::Closed, elapsed_ms) == (
                over,
                false,
                ReactionView::Closed(closed),
            )
            &&& session.receive(SocketEventView::Failed(why), elapsed_ms) == (
                over,
                false,
                ReactionView::Closed(failed),
            )
        }),
{
    lemma_recognised(session);
}

/// Ending with what there is, or with an error, is ending with the transcript where something was
/// recognised and with that error where nothing was.
pub proof fn what_was_recognised_comes_before_the_error(
    session: SessionView,
    error: ErrorView,
    elapsed_ms: Option<u64>,
)
    ensures
        something_recognised(session) ==> session.finish_with_partial_or_error(error, elapsed_ms)
            == session.finish(Ok(session.transcript(elapsed_ms))),
        !something_recognised(session) ==> session.finish_with_partial_or_error(error, elapsed_ms)
            == session.finish(Err(error)),
{
    lemma_recognised(session);
}

/// The text of a transcript is that of the segments from the smallest number to the largest,
/// merged, and of each segment the final text, or the interim one where there is no final one.
pub proof fn transcript_is_the_segments_merged(
    session: SessionView,
    ids: Seq<i64>,
    texts: Seq<Seq<char>>,
    elapsed_ms: Option<u64>,
)
    requires
        ids.len() > 0,
        texts.len() == ids.len(),
        forall|i: int, j: int| 0 <= i < j < ids.len() ==> ids[i] < ids[j],
        forall|id: i64| #[trigger]
            ids.contains(id) <==> session.finals.contains_key(id) || session.partials.contains_key(
                id,
            ),
        forall|i: int|
            0 <= i < ids.len() ==> #[trigger] texts[i] == if session.finals.contains_key(ids[i]) {
                session.finals[ids[i]]
            } else {
                session.partials[ids[i]]
            },
    ensures
        session.transcript(elapsed_ms).text == segments::merged(texts),
        session.best_text() == Some(segments::merged(texts)),
{
    let table = segments::combined(session.finals, session.partials);
    assert forall|id: i64| ids.to_set().contains(id) == table.dom().contains(id) by {
        assert(ids.contains(id) <==> ids.to_set().contains(id));
    }
    assert(ids.to_set() =~= table.dom());
    segments::segments_come_in_id_order(table, ids);
    assert(texts =~= Seq::new(ids.len(), |i: int| table[ids[i]])) by {
        assert forall|i: int| 0 <= i < ids.len() implies texts[i] == #[trigger] table[ids[i]] by {
            assert(ids.contains(ids[i]));
        }
    }
    assert(ids.contains(ids[0]));
    assert(table.dom().contains(ids[0]));
}

/// Without segments the text of a transcript is the last text, or nothing where that is blank.
pub proof fn transcript_without_segments(session: SessionView, elapsed_ms: Option<u64>)
    requires
        forall|id: i64| !#[trigger] session.finals.contains_key(id),
        forall|id: i64| !#[trigger] session.partials.contains_key(id),
    ensures
        says_something(session.last_text) ==> session.transcript(elapsed_ms).text
            == session.last_text && session.best_text() == Some(session.last_text),
        !says_something(session.last_text) ==> session.transcript(elapsed_ms).text.len() == 0
            && session.best_text() is None,
{
    lemma_blank(session.last_text);
    assert(segments::combined(session.finals, session.partials).dom() =~= Set::<i64>::empty());
}

/// A transcript is as long as the audio that came, at thirty-two bytes to the whole millisecond;
/// where none came, as long as the session was open, or nothing where that is not known.
pub proof fn duration_is_that_of_the_audio(session: SessionView, elapsed_ms: Option<u64>)
    ensures
        session.bytes_received > 0 ==> {
            let ms = session.transcript(elapsed_ms).duration_ms;
            32 * ms <= session.bytes_received < 32 * (ms + 1)
        },
        session.bytes_received == 0 ==> session.transcript(elapsed_ms).duration_ms == (
        match elapsed_ms {
            Some(elapsed) => elapsed,
            None => 0,
        }),
{
}

/// In every state of a session, waiting that is told of an outcome is done with exactly that
/// outcome, closes nothing, and leaves the session as it is.
pub proof fn delivered_outcome_is_returned(
    session: SessionView,
    outcome: Outcome,
    elapsed_ms: Option<u64>,
)
    ensures
        session.await_final_result(WaitEventView::Delivered(outcome), elapsed_ms) == (
            session,
            WaitStepView::Done { close: false, outcome },
        ),
{
}

/// Whatever outcome the connection brings about, whoever waits for the outcome of the session
/// gets that one.
pub proof fn outcome_reaches_who_waits(
    session: SessionView,
    event: SocketEventView,
    outcome: Outcome,
    then_ms: Option<u64>,
    now_ms: Option<u64>,
)
    requires
        session.receive(event, then_ms).2 == ReactionView::Closed(Some(outcome)),
    ensures
        session.receive(event, then_ms).0.await_final_result(
            WaitEventView::Delivered(outcome),
            now_ms,
        ) == (
            session.receive(event, then_ms).0,
            WaitStepView::Done { close: false, outcome },
        ),
{
}

/// Waiting begins where there is an outcome to wait for, and takes it; else it fails at once.
pub proof fn waiting_takes_the_outcome(session: SessionView, elapsed_ms: Option<u64>)
    ensures
        session.receivable ==> session.await_final_result(WaitEventView::Begin, elapsed_ms) == (
            SessionView { receivable: false, ..session },
            WaitStepView::Wait,
        ),
        !session.receivable ==> session.await_final_result(WaitEventView::Begin, elapsed_ms) == (
            session,
            WaitStepView::Done { close: false, outcome: Err(ErrorView::NoFinalResult) },
        ),
{
}

/// Waiting goes on after every new result and fails where no outcome can come any more; neither
/// changes the session.
pub proof fn waiting_goes_on_after_a_result(session: SessionView, elapsed_ms: Option<u64>)
    ensures
        session.await_final_result(WaitEventView::ResultArrived, elapsed_ms) == (
            session,
            WaitStepView::Wait,
        ),
        session.await_final_result(WaitEventView::Dropped, elapsed_ms) == (
            session,
            WaitStepView::Done { close: false, outcome: Err(ErrorView::NoFinalResult) },
        ),
{
}

/// In every state of a session, silence ends the waiting: with the transcript, and the connection
/// closed, where something was recognised, and else with a timeout. The session is over then, and
/// nothing else changes.
pub proof fn silence_ends_the_waiting(session: SessionView, elapsed_ms: Option<u64>)
    ensures
        session.await_final_result(WaitEventView::Silence, elapsed_ms).0 == (SessionView {
            finished: true,
            ..session
        }),
        something_recognised(session) ==> session.await_final_result(
            WaitEventView::Silence,
            elapsed_ms,
        ).1 == (WaitStepView::Done { close: true, outcome: Ok(session.transcript(elapsed_ms)) }),
        !something_recognised(session) ==> session.await_final_result(
            WaitEventView::Silence,
            elapsed_ms,
        ).1 == (WaitStepView::Done {
            close: false,
            outcome: Err(ErrorView::FinalResultTimeout),
        }),
{
    lemma_recognised(session);
}

/// What is returned when waiting is given up: the transcript exactly where something was
/// recognised. The session is over then, and nothing else changes.
pub proof fn giving_up_returns_what_was_recognised(
    session: SessionView,
    elapsed_ms: Option<u64>,
)
    ensures
        session.give_up_waiting(elapsed_ms).0 == (SessionView { finished: true, ..session }),
        session.give_up_waiting(elapsed_ms).1 == (if something_recognised(session) {
            Some(session.transcript(elapsed_ms))
        } else {
            None
        }),
{
    lemma_recognised(session);
}

/// A session that is given up is over, has no audio, no queue and no outcome to deliver; what was
/// recognised, and all else, stays.
pub proof fn giving_up_clears_the_session(session: SessionView)
    ensures
        session.cancelled() == (SessionView {
            finished: true,
            sending: false,
            promised: false,
            pending: Seq::empty(),
            scratch: Seq::empty(),
            ..session
        }),
{
}

} // verus!
