//! A session of streaming recognition.
//!
//! The session does no I/O. Whoever holds the connection, the queue to the service and the clock
//! tells it what happened, and it answers what is to be done.

use crate::audio;
use crate::clock;
use crate::error::{ErrorView, XfyunASRError};
use crate::json::Json;
use crate::laws;
use crate::laws::SessionStep;
use crate::protocol;
use crate::protocol::{
    LastFrameEventView, LastFrameStepView, OpenEventView, OpenStepView, Outcome, ReactionView,
    SendItemView, SessionView, SocketEventView, TranscriptView, WaitEventView, WaitStepView,
    BYTES_PER_MS,
};
use crate::segments;
use crate::signing;
use crate::signing::XfyunCredentials;
use crate::text;
use crate::words;
use std::collections::BTreeMap;
use std::time::SystemTime;
use vstd::prelude::*;

verus! {

/// The name of this provider of speech recognition.
pub const PROVIDER_ID: &'static str = "xfyun-rtasr";

/// How many seconds of silence after the end marker mean that the service will send no more.
pub const SILENCE_TIMEOUT_SECS: u64 = 2;

/// How many seconds the end of the audio waits for the service to accept the session.
pub const HANDSHAKE_TIMEOUT_SECS: u64 = 5;

/// A recognised text, and how long the audio is that it was recognised from.
#[derive(Clone, Debug)]
pub struct RawTranscript {
    pub text: String,
    pub duration_ms: u64,
}

impl View for RawTranscript {
    type V = TranscriptView;

    open spec fn view(&self) -> TranscriptView {
        TranscriptView { text: self.text@, duration_ms: self.duration_ms }
    }
}

/// What an outcome says.
pub open spec fn outcome_view(outcome: Result<RawTranscript, XfyunASRError>) -> Outcome {
    match outcome {
        Ok(transcript) => Ok(transcript@),
        Err(error) => Err(error@),
    }
}

/// What a session answers an event of the connection with.
#[derive(Debug)]
pub enum Reaction {
    /// Nothing is to be done.
    Ignored,
    /// The service accepted the session: wake who waits for that, and queue these frames.
    Started(Vec<Vec<u8>>),
    /// A new result was stored: wake who waits for the outcome.
    Stored,
    /// The session is over: deliver this outcome, if there is one, and close the connection.
    Closed(Option<Result<RawTranscript, XfyunASRError>>),
}

impl View for Reaction {
    type V = ReactionView;

    open spec fn view(&self) -> ReactionView {
        match *self {
            Reaction::Ignored => ReactionView::Ignored,
            Reaction::Started(frames) => ReactionView::Started(audio::chunk_views(frames@)),
            Reaction::Stored => ReactionView::Stored,
            Reaction::Closed(None) => ReactionView::Closed(None),
            Reaction::Closed(Some(outcome)) => ReactionView::Closed(Some(outcome_view(outcome))),
        }
    }
}

/// What goes to the service.
#[derive(Debug)]
pub enum SendItem {
    /// A frame of audio.
    Audio(Vec<u8>),
    /// The end of the audio.
    Finish,
}

impl View for SendItem {
    type V = SendItemView;

    open spec fn view(&self) -> SendItemView {
        match *self {
            SendItem::Audio(frame) => SendItemView::Audio(frame@),
            SendItem::Finish => SendItemView::Finish,
        }
    }
}

/// What each of several items says.
pub open spec fn item_views(items: Seq<SendItem>) -> Seq<SendItemView> {
    Seq::new(items.len(), |i: int| items[i]@)
}

/// What happens while a session is opened.
#[derive(Debug)]
pub enum OpenEvent {
    /// The session is to be opened.
    Begin,
    /// The connection stands.
    Connected,
    /// There is no connection, and this is why.
    Failed(String),
}

impl View for OpenEvent {
    type V = OpenEventView;

    open spec fn view(&self) -> OpenEventView {
        match *self {
            OpenEvent::Begin => OpenEventView::Begin,
            OpenEvent::Connected => OpenEventView::Connected,
            OpenEvent::Failed(why) => OpenEventView::Failed(why@),
        }
    }
}

/// What is to be done to open a session.
#[derive(Debug)]
pub enum OpenStep {
    /// Connect to this address.
    Connect(String),
    /// Nothing more.
    Done(Result<(), XfyunASRError>),
}

impl View for OpenStep {
    type V = OpenStepView;

    open spec fn view(&self) -> OpenStepView {
        match *self {
            OpenStep::Connect(url) => OpenStepView::Connect(url@),
            OpenStep::Done(Ok(_)) => OpenStepView::Done(Ok(())),
            OpenStep::Done(Err(error)) => OpenStepView::Done(Err(error@)),
        }
    }
}

/// What happens on the connection.
#[derive(Debug)]
pub enum SocketEvent {
    /// A text message.
    Text(String),
    /// The service closed the connection.
    Closed,
    /// The connection broke, and this is why.
    Failed(String),
    /// A message of another kind.
    Other,
}

impl View for SocketEvent {
    type V = SocketEventView;

    open spec fn view(&self) -> SocketEventView {
        match *self {
            SocketEvent::Text(text) => SocketEventView::Text(text@),
            SocketEvent::Closed => SocketEventView::Closed,
            SocketEvent::Failed(why) => SocketEventView::Failed(why@),
            SocketEvent::Other => SocketEventView::Other,
        }
    }
}

/// What happens while the end of the audio is sent.
#[derive(Debug)]
pub enum LastFrameEvent {
    /// The audio is over.
    Begin,
    /// The service accepted the session, or the session was given up.
    HandshakeSeen,
    /// Neither happened in time.
    HandshakeTimedOut,
    /// The queue to the service takes nothing any more.
    QueueClosed,
    /// Nobody will say whether the end marker went out.
    AckDropped,
    /// The end marker went out, or failed to.
    Acknowledged(Result<(), XfyunASRError>),
}

impl View for LastFrameEvent {
    type V = LastFrameEventView;

    open spec fn view(&self) -> LastFrameEventView {
        match *self {
            LastFrameEvent::Begin => LastFrameEventView::Begin,
            LastFrameEvent::HandshakeSeen => LastFrameEventView::HandshakeSeen,
            LastFrameEvent::HandshakeTimedOut => LastFrameEventView::HandshakeTimedOut,
            LastFrameEvent::QueueClosed => LastFrameEventView::QueueClosed,
            LastFrameEvent::AckDropped => LastFrameEventView::AckDropped,
            LastFrameEvent::Acknowledged(_) => LastFrameEventView::Acknowledged,
        }
    }
}

/// What is to be done to send the end of the audio.
#[derive(Debug)]
pub enum LastFrameStep {
    /// Wait until the service accepts the session.
    AwaitHandshake,
    /// Queue these, and wait until the last of them went out.
    Send(Vec<SendItem>),
    /// Nothing more.
    Done(Result<(), XfyunASRError>),
}

impl View for LastFrameStep {
    type V = LastFrameStepView;

    open spec fn view(&self) -> LastFrameStepView {
        match *self {
            LastFrameStep::AwaitHandshake => LastFrameStepView::AwaitHandshake,
            LastFrameStep::Send(items) => LastFrameStepView::Send(item_views(items@)),
            LastFrameStep::Done(Ok(_)) => LastFrameStepView::Done(Ok(())),
            LastFrameStep::Done(Err(error)) => LastFrameStepView::Done(Err(error@)),
        }
    }
}

/// What happens while the outcome is waited for.
#[derive(Debug)]
pub enum WaitEvent {
    /// The waiting begins.
    Begin,
    /// The outcome was delivered.
    Delivered(Result<RawTranscript, XfyunASRError>),
    /// No outcome will be delivered any more.
    Dropped,
    /// Nothing came for too long.
    Silence,
    /// A new result was stored.
    ResultArrived,
}

impl View for WaitEvent {
    type V = WaitEventView;

    open spec fn view(&self) -> WaitEventView {
        match *self {
            WaitEvent::Begin => WaitEventView::Begin,
            WaitEvent::Delivered(outcome) => WaitEventView::Delivered(outcome_view(outcome)),
            WaitEvent::Dropped => WaitEventView::Dropped,
            WaitEvent::Silence => WaitEventView::Silence,
            WaitEvent::ResultArrived => WaitEventView::ResultArrived,
        }
    }
}

/// What is to be done while the outcome is waited for.
#[derive(Debug)]
pub enum WaitStep {
    /// Wait until the next event; the time of silence begins anew.
    Wait,
    /// Return this outcome, and close the connection before if `close` says so.
    Done { close: bool, outcome: Result<RawTranscript, XfyunASRError> },
}

impl View for WaitStep {
    type V = WaitStepView;

    open spec fn view(&self) -> WaitStepView {
        match *self {
            WaitStep::Wait => WaitStepView::Wait,
            WaitStep::Done { close, outcome } => WaitStepView::Done {
                close,
                outcome: outcome_view(outcome),
            },
        }
    }
}

/// The state of a session that the connection and the audio source share.
#[derive(Debug)]
pub struct SyncState {
    pub task_started: bool,
    pub task_finished: bool,
    pub pending_audio: Vec<u8>,
    pub audio_scratch: Vec<u8>,
    pub bytes_received: u64,
    /// There is a queue to the service.
    pub sending: bool,
    /// An outcome can still be delivered.
    pub promised: bool,
    /// The final texts by segment.
    pub final_segments: BTreeMap<i64, String>,
    /// The interim texts by segment.
    pub partial_segments: BTreeMap<i64, String>,
    pub last_result_text: String,
}

/// A session of streaming recognition.
#[derive(Debug)]
pub struct XfyunStreamingASR {
    pub credentials: XfyunCredentials,
    pub state: SyncState,
    /// An outcome can still be waited for.
    pub receivable: bool,
}

impl View for XfyunStreamingASR {
    type V = SessionView;

    open spec fn view(&self) -> SessionView {
        SessionView {
            credentials: self.credentials@,
            started: self.state.task_started,
            finished: self.state.task_finished,
            pending: self.state.pending_audio@,
            scratch: self.state.audio_scratch@,
            bytes_received: self.state.bytes_received,
            sending: self.state.sending,
            promised: self.state.promised,
            receivable: self.receivable,
            finals: segments::table_view(self.state.final_segments@),
            partials: segments::table_view(self.state.partial_segments@),
            last_text: self.state.last_result_text@,
        }
    }
}

impl SyncState {
    /// The state before anything has happened.
    fn idle() -> (state: SyncState)
        ensures
            !state.task_started,
            !state.task_finished,
            state.pending_audio@ == Seq::<u8>::empty(),
            state.audio_scratch@ == Seq::<u8>::empty(),
            state.bytes_received == 0,
            !state.sending,
            !state.promised,
            state.final_segments@ == Map::<i64, String>::empty(),
            state.partial_segments@ == Map::<i64, String>::empty(),
            state.last_result_text@ == Seq::<char>::empty(),
    {
        SyncState {
            task_started: false,
            task_finished: false,
            pending_audio: Vec::new(),
            audio_scratch: Vec::new(),
            bytes_received: 0,
            sending: false,
            promised: false,
            final_segments: BTreeMap::new(),
            partial_segments: BTreeMap::new(),
            last_result_text: String::new(),
        }
    }
}

impl XfyunStreamingASR {
    /// A session that is not open yet.
    pub fn new(credentials: XfyunCredentials) -> (session: Self)
        ensures
            session@ == SessionView::fresh(credentials@),
            session@.well_formed(),
    {
        let session = XfyunStreamingASR {
            credentials,
            state: SyncState::idle(),
            receivable: false,
        };
        assert(session@ =~= SessionView::fresh(credentials@));
        proof {
            laws::every_session_is_well_formed(credentials@, Seq::empty());
        }
        session
    }

    /// Takes in audio, and returns the frames that it fills.
    pub fn consume_pcm_chunk(&mut self, pcm: &[u8]) -> (frames: Vec<Vec<u8>>)
        ensures
            (final(self)@, audio::chunk_views(frames@)) == old(self)@.consume(pcm@),
            old(self)@.well_formed() ==> final(self)@.well_formed(),
    {
        proof {
            if self@.well_formed() {
                laws::step_keeps_well_formed(self@, SessionStep::Pcm(pcm@));
            }
        }
        if pcm.len() == 0 {
            return Vec::new();
        }
        self.state.bytes_received = self.state.bytes_received.saturating_add(pcm.len() as u64);
        if !self.state.task_started {
            self.state.pending_audio.extend_from_slice(pcm);
            return Vec::new();
        }
        self.state.audio_scratch.extend_from_slice(pcm);
        assert(self.state.audio_scratch@ =~= old(self)@.scratch + pcm@);
        let frames = audio::drain_audio_chunks(&mut self.state.audio_scratch);
        self.for_queue(frames)
    }

    /// `frames` where there is a queue for them.
    fn for_queue(&self, frames: Vec<Vec<u8>>) -> (queued: Vec<Vec<u8>>)
        ensures
            audio::chunk_views(queued@) == self@.queued(audio::chunk_views(frames@)),
    {
        if self.state.sending {
            frames
        } else {
            let none: Vec<Vec<u8>> = Vec::new();
            assert(audio::chunk_views(none@) =~= Seq::empty());
            none
        }
    }

    /// Moves the audio that came before the session was accepted behind the other audio.
    fn merge_pending(&mut self)
        ensures
            final(self)@ == (SessionView {
                scratch: old(self)@.buffered(),
                pending: Seq::empty(),
                ..old(self)@
            }),
    {
        self.state.audio_scratch.append(&mut self.state.pending_audio);
    }

    /// The service accepts the session: returns the frames that the audio so far fills.
    pub fn mark_task_started(&mut self) -> (frames: Vec<Vec<u8>>)
        ensures
            (final(self)@, audio::chunk_views(frames@)) == old(self)@.accepted(),
            old(self)@.well_formed() ==> final(self)@.well_formed(),
    {
        proof {
            if self@.well_formed() {
                laws::accepting_keeps_well_formed(self@);
            }
        }
        self.state.task_started = true;
        self.merge_pending();
        let frames = audio::drain_audio_chunks(&mut self.state.audio_scratch);
        self.for_queue(frames)
    }

    /// Takes out all audio, as what ends the stream: whole frames, the rest, the end marker.
    fn take_closing_items(&mut self) -> (items: Vec<SendItem>)
        ensures
            final(self)@ == old(self)@.flushed(),
            item_views(items@) == old(self)@.closing_items(),
    {
        self.merge_pending();
        let mut frames = audio::drain_audio_chunks(&mut self.state.audio_scratch);
        let mut tail: Vec<u8> = Vec::new();
        std::mem::swap(&mut tail, &mut self.state.audio_scratch);
        if tail.len() > 0 {
            let ghost whole = frames@;
            frames.push(tail);
            assert(audio::chunk_views(frames@) =~= audio::chunk_views(whole).push(tail@));
        }
        assert(audio::chunk_views(frames@) =~= old(self)@.last_frames());
        let mut items: Vec<SendItem> = Vec::new();
        let ghost all = frames@;
        for frame in it: frames
            invariant
                it.seq() == all,
                items@.len() == it.index(),
                forall|i: int|
                    0 <= i < items@.len() ==> (#[trigger] items@[i])@ == SendItemView::Audio(
                        all[i]@,
                    ),
        {
            items.push(SendItem::Audio(frame));
        }
        items.push(SendItem::Finish);
        assert(item_views(items@) =~= old(self)@.closing_items());
        items
    }

    /// Stores the text of a result under its segment; returns whether there was a text.
    pub fn record_data(&mut self, data: &Json) -> (stored: bool)
        ensures
            (final(self)@, stored) == old(self)@.record(data@),
            old(self)@.well_formed() ==> final(self)@.well_formed(),
    {
        proof {
            if self@.well_formed() {
                laws::recording_keeps_well_formed(self@, data@);
            }
        }
        let id: i64 = words::segment_id(data);
        let is_final = words::is_final(data);
        let text = words::extract_words(data);
        if text.as_str().is_empty() {
            return false;
        }
        self.state.last_result_text = text.clone();
        if is_final {
            self.state.final_segments.insert(id, text);
            self.state.partial_segments.remove(&id);
        } else {
            self.state.partial_segments.insert(id, text);
        }
        assert(self@ =~= old(self)@.record(data@).0);
        true
    }

    /// Stores the result that a message of the kind `result` holds; returns whether it held one
    /// with a text.
    pub fn record_result(&mut self, message: &Json) -> (stored: bool)
        ensures
            (final(self)@, stored) == old(self)@.record_message(message@),
            old(self)@.well_formed() ==> final(self)@.well_formed(),
    {
        match message.str_at("data") {
            Some(data) => match Json::parse(data) {
                Some(data) => self.record_data(&data),
                None => false,
            },
            None => false,
        }
    }

    /// Whether a text is stored under some segment.
    fn has_segments(&self) -> (yes: bool)
        ensures
            yes == (segments::combined(self@.finals, self@.partials).dom() != Set::<
                i64,
            >::empty()),
    {
        let ghost all = segments::combined(self@.finals, self@.partials).dom();
        if !self.state.final_segments.is_empty() {
            proof {
                let id = choose|id: i64| self.state.final_segments@.dom().contains(id);
                assert(all.contains(id));
            }
            true
        } else if !self.state.partial_segments.is_empty() {
            proof {
                let id = choose|id: i64| self.state.partial_segments@.dom().contains(id);
                assert(all.contains(id));
            }
            true
        } else {
            assert(all =~= Set::empty());
            false
        }
    }

    /// The best text that the session has.
    fn best_text(&self) -> (found: Option<String>)
        ensures
            match found {
                Some(text) => self@.best_text() == Some(text@),
                None => self@.best_text() is None,
            },
    {
        if self.has_segments() {
            let texts = segments::ordered_segments(
                &self.state.final_segments,
                &self.state.partial_segments,
            );
            Some(segments::merge_segments(texts.as_slice()))
        } else if !self.state.last_result_text.as_str().trim().is_empty() {
            Some(self.state.last_result_text.clone())
        } else {
            None
        }
    }

    /// How long the audio is.
    fn duration_ms(&self, elapsed_ms: Option<u64>) -> (duration: u64)
        ensures
            duration == self@.duration_ms(elapsed_ms),
    {
        if self.state.bytes_received > 0 {
            self.state.bytes_received / BYTES_PER_MS
        } else {
            elapsed_ms.unwrap_or(0)
        }
    }

    /// Ends the session with `outcome`, unless it is over already.
    fn finish(&mut self, outcome: Result<RawTranscript, XfyunASRError>) -> (reaction: Reaction)
        ensures
            (final(self)@, reaction@) == old(self)@.finish(outcome_view(outcome)),
    {
        if self.state.task_finished {
            return Reaction::Ignored;
        }
        self.state.task_finished = true;
        self.state.sending = false;
        if self.state.promised {
            self.state.promised = false;
            Reaction::Closed(Some(outcome))
        } else {
            Reaction::Closed(None)
        }
    }

    /// Ends the session with the transcript of what was recognised.
    pub fn finish_success(&mut self, elapsed_ms: Option<u64>) -> (reaction: Reaction)
        ensures
            (final(self)@, reaction@) == old(self)@.finish(Ok(old(self)@.transcript(elapsed_ms))),
            old(self)@.well_formed() ==> final(self)@.well_formed(),
    {
        let text = match self.best_text() {
            Some(text) => text,
            None => String::new(),
        };
        let duration_ms: u64 = self.duration_ms(elapsed_ms);
        self.finish(Ok(RawTranscript { text, duration_ms }))
    }

    /// Ends the session with `error`.
    pub fn finish_error(&mut self, error: XfyunASRError) -> (reaction: Reaction)
        ensures
            (final(self)@, reaction@) == old(self)@.finish(Err(error@)),
            old(self)@.well_formed() ==> final(self)@.well_formed(),
    {
        self.finish(Err(error))
    }

    /// Ends the session with the transcript where something was recognised, and else with
    /// `error`.
    pub fn finish_with_partial_or_error(
        &mut self,
        error: XfyunASRError,
        elapsed_ms: Option<u64>,
    ) -> (reaction: Reaction)
        ensures
            (final(self)@, reaction@) == old(self)@.finish_with_partial_or_error(
                error@,
                elapsed_ms,
            ),
            old(self)@.well_formed() ==> final(self)@.well_formed(),
    {
        let has_partial = !self.state.last_result_text.as_str().trim().is_empty()
            || self.has_segments();
        if has_partial {
            self.finish_success(elapsed_ms)
        } else {
            self.finish_error(error)
        }
    }

    /// The transcript of what was recognised so far, if anything was; the session counts as over.
    pub fn build_partial_result(&mut self, elapsed_ms: Option<u64>) -> (found: Option<
        RawTranscript,
    >)
        ensures
            match found {
                Some(transcript) => (final(self)@, Some(transcript@)) == old(
                    self,
                )@.give_up_waiting(elapsed_ms),
                None => (final(self)@, None::<TranscriptView>) == old(self)@.give_up_waiting(
                    elapsed_ms,
                ),
            },
            old(self)@.well_formed() ==> final(self)@.well_formed(),
    {
        self.state.task_finished = true;
        match self.best_text() {
            Some(text) => {
                let duration_ms: u64 = self.duration_ms(elapsed_ms);
                Some(RawTranscript { text, duration_ms })
            },
            None => None,
        }
    }

    /// Takes in a message that was read as JSON; returns whether more messages are to be read,
    /// and what is to be done.
    pub fn handle_message(&mut self, message: &Json) -> (step: (bool, Reaction))
        ensures
            (final(self)@, step.0, step.1@) == old(self)@.handle(message@),
            old(self)@.well_formed() ==> final(self)@.well_formed(),
    {
        proof {
            reveal_strlit("");
            reveal_strlit("started");
            reveal_strlit("result");
            reveal_strlit("error");
        }
        let action = message.str_at("action").unwrap_or("");
        let code = message.str_at("code").unwrap_or("");
        assert(""@ =~= Seq::<char>::empty());
        assert("result"@.len() != "error"@.len());
        if text::same_text(action, "started") {
            (true, Reaction::Started(self.mark_task_started()))
        } else if text::same_text(action, "result") {
            if !text::same_text(code, "0") {
                return (true, Reaction::Ignored);
            }
            if self.record_result(message) {
                (true, Reaction::Stored)
            } else {
                (true, Reaction::Ignored)
            }
        } else if text::same_text(action, "error") {
            let desc = message.str_at("desc").unwrap_or("unknown error");
            let error = XfyunASRError::ServerError {
                code: code.to_owned(),
                desc: desc.to_owned(),
            };
            (false, self.finish_error(error))
        } else {
            (true, Reaction::Ignored)
        }
    }

    /// Takes in a text message; returns whether more messages are to be read, and what is to be
    /// done.
    pub fn handle_text_message(&mut self, text: &str) -> (step: (bool, Reaction))
        ensures
            (final(self)@, step.0, step.1@) == old(self)@.handle_text(text@),
            old(self)@.well_formed() ==> final(self)@.well_formed(),
    {
        match Json::parse(text) {
            Some(message) => self.handle_message(&message),
            None => (true, Reaction::Ignored),
        }
    }

    /// Gives the session up.
    pub fn cancel(&mut self)
        ensures
            final(self)@ == old(self)@.cancelled(),
            old(self)@.well_formed() ==> final(self)@.well_formed(),
    {
        self.state.pending_audio.clear();
        self.state.audio_scratch.clear();
        self.state.sending = false;
        self.state.promised = false;
        self.state.task_finished = true;
    }

    /// What follows on the address of the session, or on why there is none.
    pub fn connect_step(url: Result<String, XfyunASRError>) -> (step: OpenStep)
        ensures
            match url {
                Ok(url) => step == OpenStep::Connect(url),
                Err(error) => step matches OpenStep::Done(Err(XfyunASRError::SignaFailed(why)))
                    && why@ == error@.message(),
            },
            step@ == protocol::connect_answer(
                match url {
                    Ok(url) => Ok(url@),
                    Err(error) => Err(error@),
                },
            ),
    {
        match url {
            Ok(url) => OpenStep::Connect(url),
            Err(error) => OpenStep::Done(Err(XfyunASRError::SignaFailed(error.message()))),
        }
    }

    /// Opens the session: begin with `Begin`, and tell how each step went until one says `Done`.
    pub fn open_session(&mut self, event: OpenEvent) -> (step: OpenStep)
        ensures
            final(self)@ == (if event is Connected {
                old(self)@.connected()
            } else {
                old(self)@
            }),
            match event {
                OpenEvent::Begin => if old(self)@.credentials.missing() {
                    step == OpenStep::Done(Err(XfyunASRError::CredentialsMissing))
                } else {
                    match step {
                        OpenStep::Connect(url) => exists|now: SystemTime|
                            (#[trigger] clock::epoch_seconds(now)) is Some && url@ == old(
                                self,
                            )@.credentials.session_url(clock::epoch_seconds(now)->Some_0),
                        OpenStep::Done(Err(error)) => {
                            &&& exists|why: Seq<char>|
                                error@ == ErrorView::SignaFailed(
                                    #[trigger] ErrorView::SignaFailed(why).message(),
                                )
                            &&& exists|now: SystemTime|
                                (#[trigger] clock::epoch_seconds(now)) is None
                        },
                        OpenStep::Done(Ok(_)) => false,
                    }
                },
                OpenEvent::Connected => step == OpenStep::Done(Ok(())),
                OpenEvent::Failed(why) => step == OpenStep::Done(
                    Err(XfyunASRError::ConnectionFailed(why)),
                ),
            },
            old(self)@.opens(event@, final(self)@, step@),
            old(self)@.well_formed() ==> final(self)@.well_formed(),
    {
        proof {
            if self@.well_formed() {
                laws::step_keeps_well_formed(self@, SessionStep::Connected);
            }
        }
        match event {
            OpenEvent::Begin => {
                if self.credentials.app_id.as_str().trim().is_empty()
                    || self.credentials.api_key.as_str().trim().is_empty() {
                    return OpenStep::Done(Err(XfyunASRError::CredentialsMissing));
                }
                let url = signing::build_session_url(&self.credentials);
                Self::connect_step(url)
            },
            OpenEvent::Connected => {
                self.state = SyncState::idle();
                self.state.sending = true;
                self.state.promised = true;
                self.receivable = true;
                assert(self@ =~= old(self)@.connected());
                OpenStep::Done(Ok(()))
            },
            OpenEvent::Failed(why) => OpenStep::Done(Err(XfyunASRError::ConnectionFailed(why))),
        }
    }

    /// Takes in what happened on the connection; returns whether to read on, and what is to be
    /// done.
    pub fn receive(&mut self, event: SocketEvent, elapsed_ms: Option<u64>) -> (step: (
        bool,
        Reaction,
    ))
        ensures
            (final(self)@, step.0, step.1@) == old(self)@.receive(event@, elapsed_ms),
            old(self)@.well_formed() ==> final(self)@.well_formed(),
    {
        match event {
            SocketEvent::Text(text) => self.handle_text_message(text.as_str()),
            SocketEvent::Closed => (
                false,
                self.finish_with_partial_or_error(XfyunASRError::NoFinalResult, elapsed_ms),
            ),
            SocketEvent::Failed(why) => (
                false,
                self.finish_with_partial_or_error(
                    XfyunASRError::ConnectionFailed(why),
                    elapsed_ms,
                ),
            ),
            SocketEvent::Other => (true, Reaction::Ignored),
        }
    }

    /// Sends the rest of the audio and the end marker: begin with `Begin`, and tell how each step
    /// went until one says `Done`.
    pub fn send_last_frame(&mut self, event: LastFrameEvent) -> (step: LastFrameStep)
        ensures
            (final(self)@, step@) == old(self)@.send_last_frame(event@),
            old(self)@.well_formed() ==> final(self)@.well_formed(),
    {
        let ready = match event {
            LastFrameEvent::Begin => self.state.task_started || self.state.task_finished,
            LastFrameEvent::HandshakeSeen => true,
            LastFrameEvent::HandshakeTimedOut => {
                return LastFrameStep::Done(Err(XfyunASRError::FinalResultTimeout));
            },
            LastFrameEvent::QueueClosed => {
                return LastFrameStep::Done(
                    Err(XfyunASRError::ConnectionFailed("send worker closed".to_owned())),
                );
            },
            LastFrameEvent::AckDropped => {
                return LastFrameStep::Done(
                    Err(XfyunASRError::ConnectionFailed("finish ack dropped".to_owned())),
                );
            },
            LastFrameEvent::Acknowledged(_) => {
                return LastFrameStep::Done(Ok(()));
            },
        };
        if !ready {
            return LastFrameStep::AwaitHandshake;
        }
        let items = self.take_closing_items();
        if self.state.sending {
            LastFrameStep::Send(items)
        } else {
            LastFrameStep::Done(Ok(()))
        }
    }

    /// Waits for the outcome: begin with `Begin`, and tell what happened until a step says `Done`.
    pub fn await_final_result(
        &mut self,
        event: WaitEvent,
        elapsed_ms: Option<u64>,
    ) -> (step: WaitStep)
        ensures
            (final(self)@, step@) == old(self)@.await_final_result(event@, elapsed_ms),
            old(self)@.well_formed() ==> final(self)@.well_formed(),
    {
        match event {
            WaitEvent::Begin => {
                if self.receivable {
                    self.receivable = false;
                    WaitStep::Wait
                } else {
                    WaitStep::Done { close: false, outcome: Err(XfyunASRError::NoFinalResult) }
                }
            },
            WaitEvent::Delivered(outcome) => WaitStep::Done { close: false, outcome },
            WaitEvent::Dropped => WaitStep::Done {
                close: false,
                outcome: Err(XfyunASRError::NoFinalResult),
            },
            WaitEvent::Silence => match self.build_partial_result(elapsed_ms) {
                Some(transcript) => WaitStep::Done { close: true, outcome: Ok(transcript) },
                None => WaitStep::Done {
                    close: false,
                    outcome: Err(XfyunASRError::FinalResultTimeout),
                },
            },
            WaitEvent::ResultArrived => WaitStep::Wait,
        }
    }
}

/// The end marker: the JSON text `{"end":true}`.
pub open spec fn end_marker() -> Seq<char> {
    "{\"end\":true}"@
}

/// The bytes that go over the connection for `item`.
pub fn frame_bytes(item: SendItem) -> (bytes: Vec<u8>)
    ensures
        bytes@ == (match item@ {
            SendItemView::Audio(frame) => frame,
            SendItemView::Finish => vstd::utf8::encode_utf8(end_marker()),
        }),
        bytes@ == protocol::wire_bytes(item@),
{
    match item {
        SendItem::Audio(frame) => frame,
        SendItem::Finish => "{\"end\":true}".as_bytes_vec(),
    }
}

/// A frame is forty milliseconds of audio; silence lasts two seconds, and the service has five to
/// accept a session.
pub proof fn times_of_a_session()
    ensures
        audio::TARGET_AUDIO_CHUNK_BYTES == 40 * BYTES_PER_MS,
        BYTES_PER_MS == 16_000 * 2 / 1_000,
        SILENCE_TIMEOUT_SECS == 2,
        HANDSHAKE_TIMEOUT_SECS == 5,
{
}

/// The view of a session shows all that it holds, and the texts under each segment.
pub proof fn view_shows_the_whole_session(session: XfyunStreamingASR, id: i64)
    ensures
        session@.credentials.app_id == session.credentials.app_id@,
        session@.credentials.api_key == session.credentials.api_key@,
        session@.credentials.endpoint == session.credentials.endpoint@,
        session@.started == session.state.task_started,
        session@.finished == session.state.task_finished,
        session@.pending == session.state.pending_audio@,
        session@.scratch == session.state.audio_scratch@,
        session@.bytes_received == session.state.bytes_received,
        session@.sending == session.state.sending,
        session@.promised == session.state.promised,
        session@.receivable == session.receivable,
        session@.last_text == session.state.last_result_text@,
        session@.finals.contains_key(id) <==> session.state.final_segments@.contains_key(id),
        session@.finals.contains_key(id) ==> session@.finals[id]
            == session.state.final_segments@[id]@,
        session@.partials.contains_key(id) <==> session.state.partial_segments@.contains_key(id),
        session@.partials.contains_key(id) ==> session@.partials[id]
            == session.state.partial_segments@[id]@,
{
}

/// The view of a reaction shows all that it holds.
pub proof fn view_shows_the_whole_reaction(reaction: Reaction)
    ensures
        reaction is Ignored <==> reaction@ is Ignored,
        reaction is Stored <==> reaction@ is Stored,
        reaction matches Reaction::Started(frames) ==> (reaction@ matches ReactionView::Started(
            seen,
        ) && seen.len() == frames@.len() && forall|i: int|
            0 <= i < seen.len() ==> #[trigger] seen[i] == frames@[i]@),
        reaction matches Reaction::Closed(None) ==> reaction@ == ReactionView::Closed(None),
        reaction matches Reaction::Closed(Some(Ok(transcript))) ==> reaction@
            == ReactionView::Closed(
            Some(
                Ok(
                    TranscriptView {
                        text: transcript.text@,
                        duration_ms: transcript.duration_ms,
                    },
                ),
            ),
        ),
        reaction matches Reaction::Closed(Some(Err(error))) ==> reaction@ == ReactionView::Closed(
            Some(Err(error@)),
        ),
{
}

/// The views of what happens and of what is to be done show all that these hold.
pub proof fn views_show_events_and_steps(
    opening: OpenEvent,
    opened: OpenStep,
    socket: SocketEvent,
    ending: LastFrameEvent,
    ended: LastFrameStep,
    waiting: WaitEvent,
    waited: WaitStep,
)
    ensures
        opening is Begin <==> opening@ is Begin,
        opening is Connected <==> opening@ is Connected,
        opening matches OpenEvent::Failed(why) ==> opening@ == OpenEventView::Failed(why@),
        opened matches OpenStep::Connect(url) ==> opened@ == OpenStepView::Connect(url@),
        opened matches OpenStep::Done(Ok(_)) ==> opened@ == OpenStepView::Done(Ok(())),
        opened matches OpenStep::Done(Err(error)) ==> opened@ == OpenStepView::Done(Err(error@)),
        socket matches SocketEvent::Text(text) ==> socket@ == SocketEventView::Text(text@),
        socket is Closed <==> socket@ is Closed,
        socket matches SocketEvent::Failed(why) ==> socket@ == SocketEventView::Failed(why@),
        socket is Other <==> socket@ is Other,
        ending is Begin <==> ending@ is Begin,
        ending is HandshakeSeen <==> ending@ is HandshakeSeen,
        ending is HandshakeTimedOut <==> ending@ is HandshakeTimedOut,
        ending is QueueClosed <==> ending@ is QueueClosed,
        ending is AckDropped <==> ending@ is AckDropped,
        ending is Acknowledged <==> ending@ is Acknowledged,
        ended is AwaitHandshake <==> ended@ is AwaitHandshake,
        ended matches LastFrameStep::Send(items) ==> (ended@ matches LastFrameStepView::Send(seen)
            && seen.len() == items@.len() && forall|i: int|
            0 <= i < seen.len() ==> match items@[i] {
                SendItem::Audio(frame) => #[trigger] seen[i] == SendItemView::Audio(frame@),
                SendItem::Finish => seen[i] == SendItemView::Finish,
            }),
        ended matches LastFrameStep::Done(Ok(_)) ==> ended@ == LastFrameStepView::Done(Ok(())),
        ended matches LastFrameStep::Done(Err(error)) ==> ended@ == LastFrameStepView::Done(
            Err(error@),
        ),
        waiting is Begin <==> waiting@ is Begin,
        waiting matches WaitEvent::Delivered(Ok(transcript)) ==> waiting@
            == WaitEventView::Delivered(Ok(transcript@)),
        waiting matches WaitEvent::Delivered(Err(error)) ==> waiting@ == WaitEventView::Delivered(
            Err(error@),
        ),
        waiting is Dropped <==> waiting@ is Dropped,
        waiting is Silence <==> waiting@ is Silence,
        waiting is ResultArrived <==> waiting@ is ResultArrived,
        waited is Wait <==> waited@ is Wait,
        waited matches WaitStep::Done { close, outcome: Ok(transcript) } ==> waited@ == (
        WaitStepView::Done { close, outcome: Ok(transcript@) }),
        waited matches WaitStep::Done { close, outcome: Err(error) } ==> waited@ == (
        WaitStepView::Done { close, outcome: Err(error@) }),
{
}

} // verus!
