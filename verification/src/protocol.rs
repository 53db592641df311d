//! The states that a session goes through, as mathematical values.

use crate::audio;
use crate::clock;
use crate::error::ErrorView;
use crate::json;
use crate::json::JsonTree;
use crate::segments;
use crate::signing::CredentialsView;
use crate::text;
use crate::words;
use std::time::SystemTime;
use vstd::prelude::*;
use vstd::utf8;

verus! {

/// How many bytes of audio make up a millisecond.
pub const BYTES_PER_MS: u64 = 32;

/// What a transcript says.
#[verifier::ext_equal]
pub struct TranscriptView {
    pub text: Seq<char>,
    pub duration_ms: u64,
}

/// How a session ends for whoever waits for its result.
pub type Outcome = Result<TranscriptView, ErrorView>;

/// What a session answers an event of the connection with.
pub enum ReactionView {
    /// Nothing is to be done.
    Ignored,
    /// The service accepted the session: these frames are to be queued.
    Started(Seq<Seq<u8>>),
    /// A new result was stored.
    Stored,
    /// The session is over: this outcome, if any, is to be delivered, and the connection closed.
    Closed(Option<Outcome>),
}

/// What goes to the service.
pub enum SendItemView {
    Audio(Seq<u8>),
    Finish,
}

/// What happens while a session is opened.
pub enum OpenEventView {
    Begin,
    Connected,
    Failed(Seq<char>),
}

/// What is to be done to open a session.
pub enum OpenStepView {
    Connect(Seq<char>),
    Done(Result<(), ErrorView>),
}

/// The bytes that go over the connection for `item`: a frame as it is, and at the end of the
/// audio a JSON text.
pub open spec fn wire_bytes(item: SendItemView) -> Seq<u8> {
    match item {
        SendItemView::Audio(frame) => frame,
        SendItemView::Finish => utf8::encode_utf8("{\"end\":true}"@),
    }
}

/// What follows on the address of a session, or on why there is none.
pub open spec fn connect_answer(url: Result<Seq<char>, ErrorView>) -> OpenStepView {
    match url {
        Ok(url) => OpenStepView::Connect(url),
        Err(error) => OpenStepView::Done(Err(ErrorView::SignaFailed(error.message()))),
    }
}

/// What happens on the connection.
pub enum SocketEventView {
    Text(Seq<char>),
    Closed,
    Failed(Seq<char>),
    Other,
}

/// What happens while the end of the audio is sent.
pub enum LastFrameEventView {
    Begin,
    HandshakeSeen,
    HandshakeTimedOut,
    QueueClosed,
    AckDropped,
    Acknowledged,
}

/// What is to be done to send the end of the audio.
pub enum LastFrameStepView {
    AwaitHandshake,
    Send(Seq<SendItemView>),
    Done(Result<(), ErrorView>),
}

/// What happens while the outcome is waited for.
pub enum WaitEventView {
    Begin,
    Delivered(Outcome),
    Dropped,
    Silence,
    ResultArrived,
}

/// What is to be done while the outcome is waited for.
pub enum WaitStepView {
    Wait,
    Done { close: bool, outcome: Outcome },
}

/// The state of a session.
#[verifier::ext_equal]
pub struct SessionView {
    pub credentials: CredentialsView,
    /// The service has accepted the session.
    pub started: bool,
    /// The session is over.
    pub finished: bool,
    /// Audio that came before the session was accepted.
    pub pending: Seq<u8>,
    /// Audio that came since and does not fill a frame yet.
    pub scratch: Seq<u8>,
    /// How many bytes of audio have come.
    pub bytes_received: u64,
    /// There is a queue to the service.
    pub sending: bool,
    /// An outcome can still be delivered.
    pub promised: bool,
    /// An outcome can still be waited for.
    pub receivable: bool,
    /// The final texts by segment.
    pub finals: Map<i64, Seq<char>>,
    /// The interim texts by segment.
    pub partials: Map<i64, Seq<char>>,
    /// The text that came last.
    pub last_text: Seq<char>,
}

impl SessionView {
    /// A session that was never opened.
    pub open spec fn fresh(credentials: CredentialsView) -> SessionView {
        SessionView {
            credentials,
            started: false,
            finished: false,
            pending: Seq::empty(),
            scratch: Seq::empty(),
            bytes_received: 0,
            sending: false,
            promised: false,
            receivable: false,
            finals: Map::empty(),
            partials: Map::empty(),
            last_text: Seq::empty(),
        }
    }

    /// What holds of every session that ever comes about: before the session is accepted all
    /// audio is pending, afterwards none is, and less than one frame is held back; every stored
    /// text has characters; and there is a last text as soon as there is any text.
    pub open spec fn well_formed(self) -> bool {
        &&& self.started ==> self.pending.len() == 0
        &&& !self.started ==> self.scratch.len() == 0
        &&& self.scratch.len() < audio::TARGET_AUDIO_CHUNK_BYTES
        &&& self.finals.dom().finite()
        &&& self.partials.dom().finite()
        &&& forall|id: i64| #[trigger]
            self.finals.contains_key(id) ==> self.finals[id].len() > 0
        &&& forall|id: i64| #[trigger]
            self.partials.contains_key(id) ==> self.partials[id].len() > 0
        &&& self.last_text.len() > 0 <==> segments::combined(self.finals, self.partials).dom()
            != Set::<i64>::empty()
    }

    /// The connection stands: everything from an earlier session is forgotten.
    pub open spec fn connected(self) -> SessionView {
        SessionView {
            sending: true,
            promised: true,
            receivable: true,
            ..SessionView::fresh(self.credentials)
        }
    }

    /// Whether `after` and `step` may follow on `event` while the session is opened. The address
    /// is signed with the second that the clock shows.
    pub open spec fn opens(
        self,
        event: OpenEventView,
        after: SessionView,
        step: OpenStepView,
    ) -> bool {
        match event {
            OpenEventView::Begin => {
                &&& after == self
                &&& if self.credentials.missing() {
                    step == OpenStepView::Done(Err(ErrorView::CredentialsMissing))
                } else {
                    ||| exists|now: SystemTime|
                        (#[trigger] clock::epoch_seconds(now)) matches Some(ts) && step
                            == OpenStepView::Connect(self.credentials.session_url(ts))
                    ||| (exists|now: SystemTime| (#[trigger] clock::epoch_seconds(now)) is None)
                        && exists|why: Seq<char>|
                        step == OpenStepView::Done(
                            Err(
                                ErrorView::SignaFailed(
                                    #[trigger] ErrorView::SignaFailed(why).message(),
                                ),
                            ),
                        )
                }
            },
            OpenEventView::Connected => {
                &&& after == self.connected()
                &&& step == OpenStepView::Done(Ok(()))
            },
            OpenEventView::Failed(why) => {
                &&& after == self
                &&& step == OpenStepView::Done(Err(ErrorView::ConnectionFailed(why)))
            },
        }
    }

    /// The audio that has come and is not handed out yet, from the first byte to the last.
    pub open spec fn buffered(self) -> Seq<u8> {
        self.scratch + self.pending
    }

    /// `frames` where there is a queue for them; without one they are dropped.
    pub open spec fn queued(self, frames: Seq<Seq<u8>>) -> Seq<Seq<u8>> {
        if self.sending {
            frames
        } else {
            Seq::empty()
        }
    }

    /// Audio arrives: the state after it, and the frames to be queued.
    pub open spec fn consume(self, pcm: Seq<u8>) -> (SessionView, Seq<Seq<u8>>) {
        let total = self.bytes_received + pcm.len();
        let counted = SessionView {
            bytes_received: if total > u64::MAX {
                u64::MAX
            } else {
                total as u64
            },
            ..self
        };
        let buffer = self.scratch + pcm;
        if pcm.len() == 0 {
            (self, Seq::empty())
        } else if !self.started {
            (SessionView { pending: self.pending + pcm, ..counted }, Seq::empty())
        } else {
            (
                SessionView { scratch: audio::audio_tail(buffer), ..counted },
                self.queued(audio::audio_chunks(buffer)),
            )
        }
    }

    /// The service accepts the session: the state after it, and the frames to be queued.
    pub open spec fn accepted(self) -> (SessionView, Seq<Seq<u8>>) {
        (
            SessionView {
                started: true,
                pending: Seq::empty(),
                scratch: audio::audio_tail(self.buffered()),
                ..self
            },
            self.queued(audio::audio_chunks(self.buffered())),
        )
    }

    /// All buffered audio as frames, the last one short where the audio does not fill it.
    pub open spec fn last_frames(self) -> Seq<Seq<u8>> {
        let tail = audio::audio_tail(self.buffered());
        audio::audio_chunks(self.buffered()) + (if tail.len() == 0 {
            Seq::empty()
        } else {
            seq![tail]
        })
    }

    /// No audio is buffered any more.
    pub open spec fn flushed(self) -> SessionView {
        SessionView { pending: Seq::empty(), scratch: Seq::empty(), ..self }
    }

    /// What ends the audio: all that is buffered, and then the end marker.
    pub open spec fn closing_items(self) -> Seq<SendItemView> {
        let frames = self.last_frames();
        Seq::new(frames.len(), |i: int| SendItemView::Audio(frames[i])).push(SendItemView::Finish)
    }

    /// A result arrives: the state after it, and whether it held a text that was stored.
    pub open spec fn record(self, data: JsonTree) -> (SessionView, bool) {
        let text = words::result_text(data);
        let id = words::result_segment(data);
        if text.len() == 0 {
            (self, false)
        } else if words::result_is_final(data) {
            (
                SessionView {
                    last_text: text,
                    finals: self.finals.insert(id, text),
                    partials: self.partials.remove(id),
                    ..self
                },
                true,
            )
        } else {
            (
                SessionView {
                    last_text: text,
                    partials: self.partials.insert(id, text),
                    ..self
                },
                true,
            )
        }
    }

    /// A message of the kind `result` arrives. The result stands in it as a JSON text.
    pub open spec fn record_message(self, message: JsonTree) -> (SessionView, bool) {
        match message.text_at("data"@) {
            Some(data) => match json::json_text(data) {
                Some(data) => self.record(data),
                None => (self, false),
            },
            None => (self, false),
        }
    }

    /// The best text that the session has: all segments merged, else the last text, if it is not
    /// blank.
    pub open spec fn best_text(self) -> Option<Seq<char>> {
        let all = segments::combined(self.finals, self.partials);
        if all.dom() != Set::<i64>::empty() {
            Some(segments::merged(segments::in_id_order(all)))
        } else if text::trimmed(self.last_text).len() != 0 {
            Some(self.last_text)
        } else {
            None
        }
    }

    /// How long the audio is: by its size, or where none came by the time that passed.
    pub open spec fn duration_ms(self, elapsed_ms: Option<u64>) -> u64 {
        if self.bytes_received > 0 {
            self.bytes_received / BYTES_PER_MS
        } else {
            match elapsed_ms {
                Some(elapsed) => elapsed,
                None => 0,
            }
        }
    }

    /// The session is over with `outcome`; one that is over already is left as it is.
    pub open spec fn finish(self, outcome: Outcome) -> (SessionView, ReactionView) {
        if self.finished {
            (self, ReactionView::Ignored)
        } else {
            (
                SessionView { finished: true, sending: false, promised: false, ..self },
                ReactionView::Closed(
                    if self.promised {
                        Some(outcome)
                    } else {
                        None
                    },
                ),
            )
        }
    }

    /// The transcript that the session ends with.
    pub open spec fn transcript(self, elapsed_ms: Option<u64>) -> TranscriptView {
        TranscriptView {
            text: match self.best_text() {
                Some(text) => text,
                None => Seq::empty(),
            },
            duration_ms: self.duration_ms(elapsed_ms),
        }
    }

    /// The session is over: with the transcript where there is a text, and else with `error`.
    pub open spec fn finish_with_partial_or_error(
        self,
        error: ErrorView,
        elapsed_ms: Option<u64>,
    ) -> (SessionView, ReactionView) {
        if self.best_text() is Some {
            self.finish(Ok(self.transcript(elapsed_ms)))
        } else {
            self.finish(Err(error))
        }
    }

    /// A message arrives: the state after it, whether more messages are read, and the reaction.
    pub open spec fn handle(self, message: JsonTree) -> (SessionView, bool, ReactionView) {
        let action = message.text_at("action"@);
        let code = match message.text_at("code"@) {
            Some(code) => code,
            None => Seq::empty(),
        };
        let desc = match message.text_at("desc"@) {
            Some(desc) => desc,
            None => "unknown error"@,
        };
        if action == Some("started"@) {
            let (after, frames) = self.accepted();
            (after, true, ReactionView::Started(frames))
        } else if action == Some("result"@) && code == "0"@ {
            let (after, stored) = self.record_message(message);
            (after, true, if stored { ReactionView::Stored } else { ReactionView::Ignored })
        } else if action == Some("error"@) {
            let (after, reaction) = self.finish(Err(ErrorView::ServerError { code, desc }));
            (after, false, reaction)
        } else {
            (self, true, ReactionView::Ignored)
        }
    }

    /// A text arrives. One that is not JSON is passed over.
    pub open spec fn handle_text(self, text: Seq<char>) -> (SessionView, bool, ReactionView) {
        match json::json_text(text) {
            Some(message) => self.handle(message),
            None => (self, true, ReactionView::Ignored),
        }
    }

    /// The service has been silent for too long: the state after it, and the transcript as far
    /// as there is a text.
    pub open spec fn give_up_waiting(self, elapsed_ms: Option<u64>) -> (
        SessionView,
        Option<TranscriptView>,
    ) {
        (
            SessionView { finished: true, ..self },
            if self.best_text() is Some {
                Some(self.transcript(elapsed_ms))
            } else {
                None
            },
        )
    }

    /// The session is given up: its buffers are empty, and it delivers and sends nothing more.
    pub open spec fn cancelled(self) -> SessionView {
        SessionView { finished: true, sending: false, promised: false, ..self.flushed() }
    }

    /// Something happens on the connection: the state after it, whether more is read from the
    /// connection, and the reaction.
    pub open spec fn receive(self, event: SocketEventView, elapsed_ms: Option<u64>) -> (
        SessionView,
        bool,
        ReactionView,
    ) {
        match event {
            SocketEventView::Text(text) => self.handle_text(text),
            SocketEventView::Closed => {
                let (after, reaction) = self.finish_with_partial_or_error(
                    ErrorView::NoFinalResult,
                    elapsed_ms,
                );
                (after, false, reaction)
            },
            SocketEventView::Failed(why) => {
                let (after, reaction) = self.finish_with_partial_or_error(
                    ErrorView::ConnectionFailed(why),
                    elapsed_ms,
                );
                (after, false, reaction)
            },
            SocketEventView::Other => (self, true, ReactionView::Ignored),
        }
    }

    /// The audio ends: all of it leaves the buffers, and where there is a queue it goes there
    /// together with the end marker.
    pub open spec fn end_audio(self) -> (SessionView, LastFrameStepView) {
        (
            self.flushed(),
            if self.sending {
                LastFrameStepView::Send(self.closing_items())
            } else {
                LastFrameStepView::Done(Ok(()))
            },
        )
    }

    /// The end of the audio is sent, as soon as the service accepted the session or the session
    /// is over. Whether the end marker went out in the end makes no difference.
    pub open spec fn send_last_frame(self, event: LastFrameEventView) -> (
        SessionView,
        LastFrameStepView,
    ) {
        match event {
            LastFrameEventView::Begin => if self.started || self.finished {
                self.end_audio()
            } else {
                (self, LastFrameStepView::AwaitHandshake)
            },
            LastFrameEventView::HandshakeSeen => self.end_audio(),
            LastFrameEventView::HandshakeTimedOut => (
                self,
                LastFrameStepView::Done(Err(ErrorView::FinalResultTimeout)),
            ),
            LastFrameEventView::QueueClosed => (
                self,
                LastFrameStepView::Done(Err(ErrorView::ConnectionFailed("send worker closed"@))),
            ),
            LastFrameEventView::AckDropped => (
                self,
                LastFrameStepView::Done(Err(ErrorView::ConnectionFailed("finish ack dropped"@))),
            ),
            LastFrameEventView::Acknowledged => (self, LastFrameStepView::Done(Ok(()))),
        }
    }

    /// The outcome is waited for, once per session. Where the service is silent for too long, what
    /// was recognised so far is the outcome.
    pub open spec fn await_final_result(
        self,
        event: WaitEventView,
        elapsed_ms: Option<u64>,
    ) -> (SessionView, WaitStepView) {
        let failed = |error: ErrorView| WaitStepView::Done { close: false, outcome: Err(error) };
        match event {
            WaitEventView::Begin => if self.receivable {
                (SessionView { receivable: false, ..self }, WaitStepView::Wait)
            } else {
                (self, failed(ErrorView::NoFinalResult))
            },
            WaitEventView::Delivered(outcome) => (
                self,
                WaitStepView::Done { close: false, outcome },
            ),
            WaitEventView::Dropped => (self, failed(ErrorView::NoFinalResult)),
            WaitEventView::Silence => {
                let (after, transcript) = self.give_up_waiting(elapsed_ms);
                match transcript {
                    Some(transcript) => (
                        after,
                        WaitStepView::Done { close: true, outcome: Ok(transcript) },
                    ),
                    None => (after, failed(ErrorView::FinalResultTimeout)),
                }
            },
            WaitEventView::ResultArrived => (self, WaitStepView::Wait),
        }
    }
}

} // verus!
