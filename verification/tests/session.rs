use xfyun_rtasr::session::{
    frame_bytes, LastFrameEvent, LastFrameStep, OpenEvent, OpenStep, Reaction, SendItem,
    SocketEvent, WaitEvent, WaitStep, HANDSHAKE_TIMEOUT_SECS, SILENCE_TIMEOUT_SECS,
};
use xfyun_rtasr::{Json, RawTranscript, XfyunASRError, XfyunCredentials, XfyunStreamingASR};

fn credentials() -> XfyunCredentials {
    XfyunCredentials {
        app_id: "a".into(),
        api_key: "k".into(),
        endpoint: "wss://rtasr.xfyun.cn/v1/ws".into(),
    }
}

fn open() -> XfyunStreamingASR {
    let mut asr = XfyunStreamingASR::new(credentials());
    assert!(matches!(
        asr.open_session(OpenEvent::Connected),
        OpenStep::Done(Ok(()))
    ));
    asr
}

fn message(members: &[(&str, &str)]) -> Json {
    Json::Object(
        members
            .iter()
            .map(|(name, value)| (name.to_string(), Json::Str(value.to_string())))
            .collect(),
    )
}

fn data(segment: i64, kind: &str, text: &str) -> String {
    format!(
        r#"{{"cn":{{"st":{{"rt":[{{"ws":[{{"cw":[{{"w":"{text}"}}]}}]}}],"type":"{kind}"}}}},"seg_id":{segment}}}"#
    )
}

fn result(segment: i64, kind: &str, text: &str) -> Json {
    message(&[
        ("action", "result"),
        ("code", "0"),
        ("data", &data(segment, kind, text)),
    ])
}

fn transcript(reaction: Reaction) -> RawTranscript {
    match reaction {
        Reaction::Closed(Some(Ok(transcript))) => transcript,
        other => panic!("no transcript: {other:?}"),
    }
}

#[test]
fn record_result_final_segment_is_stored() {
    let mut asr = XfyunStreamingASR::new(XfyunCredentials {
        app_id: "a".into(),
        api_key: "k".into(),
        endpoint: "wss://rtasr.xfyun.cn/v1/ws".into(),
    });
    let event = message(&[
        ("action", "result"),
        ("code", "0"),
        (
            "data",
            r#"{"cn":{"st":{"rt":[{"ws":[{"cw":[{"w":"你好"}]}]}],"type":"0"}},"seg_id":0}"#,
        ),
    ]);
    asr.record_result(&event);
    let st = &asr.state;
    assert_eq!(st.final_segments.len(), 1);
    assert_eq!(st.final_segments.get(&0).unwrap(), "你好");
}

#[test]
fn record_result_interim_is_stored_in_partial() {
    let mut asr = XfyunStreamingASR::new(XfyunCredentials {
        app_id: "a".into(),
        api_key: "k".into(),
        endpoint: "wss://rtasr.xfyun.cn/v1/ws".into(),
    });
    let event = message(&[
        ("action", "result"),
        ("code", "0"),
        (
            "data",
            r#"{"cn":{"st":{"rt":[{"ws":[{"cw":[{"w":"你"}]}]}],"type":"1"}},"seg_id":1}"#,
        ),
    ]);
    asr.record_result(&event);
    let st = &asr.state;
    assert!(st.final_segments.is_empty());
    assert_eq!(st.partial_segments.get(&1).unwrap(), "你");
}

#[test]
fn record_result_heartbeat_skipped() {
    let mut asr = XfyunStreamingASR::new(XfyunCredentials {
        app_id: "a".into(),
        api_key: "k".into(),
        endpoint: "wss://rtasr.xfyun.cn/v1/ws".into(),
    });
    // A heartbeat message has action "result" but data may be empty.
    let event = message(&[("action", "result"), ("code", "0"), ("data", "")]);
    asr.record_result(&event);
    let st = &asr.state;
    assert!(st.final_segments.is_empty());
    assert!(st.partial_segments.is_empty());
}

#[test]
fn blank_credentials_are_missing() {
    for (app_id, api_key) in [("", "k"), ("a", ""), (" \u{3000}", "k"), ("a", "\t\n")] {
        let mut asr = XfyunStreamingASR::new(XfyunCredentials {
            app_id: app_id.into(),
            api_key: api_key.into(),
            endpoint: "".into(),
        });
        assert!(matches!(
            asr.open_session(OpenEvent::Begin),
            OpenStep::Done(Err(XfyunASRError::CredentialsMissing))
        ));
    }
}

#[test]
fn opening_connects_to_the_signed_address() {
    let mut asr = XfyunStreamingASR::new(credentials());
    match asr.open_session(OpenEvent::Begin) {
        OpenStep::Connect(url) => {
            assert!(url.starts_with("wss://rtasr.xfyun.cn/v1/ws?appid=a&ts="))
        }
        other => panic!("no address: {other:?}"),
    }
    assert!(!asr.state.sending);
    match asr.open_session(OpenEvent::Failed("refused".into())) {
        OpenStep::Done(Err(XfyunASRError::ConnectionFailed(why))) => assert_eq!(why, "refused"),
        other => panic!("no error: {other:?}"),
    }
    assert!(!asr.state.sending);
}

#[test]
fn missing_address_is_a_failed_signature() {
    let step = XfyunStreamingASR::connect_step(Err(XfyunASRError::SignaFailed("clock".into())));
    match step {
        OpenStep::Done(Err(error)) => assert_eq!(
            error.message(),
            "signa generation failed: signa generation failed: clock"
        ),
        other => panic!("no error: {other:?}"),
    }
    assert!(matches!(
        XfyunStreamingASR::connect_step(Ok("wss://x".into())),
        OpenStep::Connect(url) if url == "wss://x"
    ));
}

#[test]
fn connecting_forgets_the_session_before() {
    let mut asr = open();
    asr.consume_pcm_chunk(&[1; 10]);
    asr.handle_message(&result(0, "0", "old"));
    asr.cancel();
    asr.open_session(OpenEvent::Connected);
    assert!(asr.state.pending_audio.is_empty());
    assert!(asr.state.final_segments.is_empty());
    assert_eq!(asr.state.last_result_text, "");
    assert_eq!(asr.state.bytes_received, 0);
    assert!(!asr.state.task_finished);
    assert!(asr.state.sending && asr.state.promised && asr.receivable);
}

#[test]
fn audio_waits_for_the_handshake() {
    let mut asr = open();
    assert!(asr.consume_pcm_chunk(&[1; 2000]).is_empty());
    assert!(asr.consume_pcm_chunk(&[]).is_empty());
    assert_eq!(asr.state.pending_audio.len(), 2000);
    let (go_on, reaction) = asr.handle_text_message(r#"{"action":"started","code":"0"}"#);
    assert!(go_on);
    match reaction {
        Reaction::Started(frames) => assert_eq!(frames, vec![vec![1u8; 1280]]),
        other => panic!("not started: {other:?}"),
    }
    assert!(asr.state.pending_audio.is_empty());
    assert_eq!(asr.state.audio_scratch.len(), 720);
    assert_eq!(asr.consume_pcm_chunk(&[2; 560]).len(), 1);
    assert!(asr.state.audio_scratch.is_empty());
    assert_eq!(asr.state.bytes_received, 2560);
}

#[test]
fn counter_of_bytes_does_not_wrap() {
    let mut asr = open();
    asr.state.bytes_received = u64::MAX - 1;
    asr.consume_pcm_chunk(&[0; 3]);
    assert_eq!(asr.state.bytes_received, u64::MAX);
}

#[test]
fn frames_without_a_queue_are_dropped() {
    let mut asr = XfyunStreamingASR::new(credentials());
    asr.mark_task_started();
    assert!(asr.consume_pcm_chunk(&[3; 1300]).is_empty());
    assert_eq!(asr.state.audio_scratch.len(), 20);
}

#[test]
fn all_audio_is_sent_once_and_in_order() {
    let mut asr = open();
    let mut brought: Vec<u8> = vec![];
    let mut sent: Vec<u8> = vec![];
    for round in 0..20usize {
        let pcm: Vec<u8> = (0..round * 97 + 1).map(|i| (i * 7 + round) as u8).collect();
        brought.extend_from_slice(&pcm);
        sent.extend(asr.consume_pcm_chunk(&pcm).concat());
        if round == 6 {
            sent.extend(asr.mark_task_started().concat());
        }
    }
    match asr.send_last_frame(LastFrameEvent::Begin) {
        LastFrameStep::Send(items) => {
            let last = items.len() - 1;
            for (i, item) in items.into_iter().enumerate() {
                match item {
                    SendItem::Audio(frame) => {
                        assert!(i < last && !frame.is_empty() && frame.len() <= 1280);
                        sent.extend(frame);
                    }
                    SendItem::Finish => assert_eq!(i, last),
                }
            }
        }
        other => panic!("nothing to send: {other:?}"),
    }
    assert_eq!(sent, brought);
}

#[test]
fn last_frame_waits_for_the_handshake() {
    let mut asr = open();
    asr.consume_pcm_chunk(&[4; 1290]);
    assert!(matches!(
        asr.send_last_frame(LastFrameEvent::Begin),
        LastFrameStep::AwaitHandshake
    ));
    assert_eq!(asr.state.pending_audio.len(), 1290);
    assert!(matches!(
        asr.send_last_frame(LastFrameEvent::HandshakeTimedOut),
        LastFrameStep::Done(Err(XfyunASRError::FinalResultTimeout))
    ));
    match asr.send_last_frame(LastFrameEvent::HandshakeSeen) {
        LastFrameStep::Send(items) => {
            assert_eq!(items.len(), 3);
            assert!(matches!(&items[0], SendItem::Audio(frame) if frame.len() == 1280));
            assert!(matches!(&items[1], SendItem::Audio(frame) if frame.len() == 10));
            assert!(matches!(&items[2], SendItem::Finish));
        }
        other => panic!("nothing to send: {other:?}"),
    }
    assert_eq!(HANDSHAKE_TIMEOUT_SECS, 5);
}

#[test]
fn last_frame_without_audio_is_the_end_marker() {
    let mut asr = open();
    asr.mark_task_started();
    match asr.send_last_frame(LastFrameEvent::Begin) {
        LastFrameStep::Send(items) => {
            assert_eq!(items.len(), 1);
            assert!(matches!(&items[0], SendItem::Finish));
        }
        other => panic!("nothing to send: {other:?}"),
    }
}

#[test]
fn failures_of_the_last_frame() {
    let mut asr = open();
    for (event, text) in [
        (LastFrameEvent::QueueClosed, "connection failed: send worker closed"),
        (LastFrameEvent::AckDropped, "connection failed: finish ack dropped"),
    ] {
        match asr.send_last_frame(event) {
            LastFrameStep::Done(Err(error)) => assert_eq!(error.message(), text),
            other => panic!("no error: {other:?}"),
        }
    }
    for result in [Ok(()), Err(XfyunASRError::NoFinalResult)] {
        assert!(matches!(
            asr.send_last_frame(LastFrameEvent::Acknowledged(result)),
            LastFrameStep::Done(Ok(()))
        ));
    }
}

#[test]
fn frames_on_the_wire() {
    assert_eq!(frame_bytes(SendItem::Audio(vec![1, 2])), vec![1, 2]);
    assert_eq!(frame_bytes(SendItem::Finish), b"{\"end\":true}".to_vec());
    let mut marker = serde_json::Map::new();
    marker.insert("end".to_string(), serde_json::Value::Bool(true));
    assert_eq!(
        frame_bytes(SendItem::Finish),
        serde_json::to_vec(&serde_json::Value::Object(marker)).unwrap()
    );
}

#[test]
fn messages_of_other_kinds_are_ignored() {
    let mut asr = open();
    for text in [
        "",
        "not json",
        "[]",
        "{}",
        r#"{"action":"pong"}"#,
        r#"{"action":1}"#,
        r#"{"action":"result","code":"10","data":"{}"}"#,
        r#"{"action":"result","data":"{}"}"#,
        r#"{"action":"result","code":"0"}"#,
        r#"{"action":"result","code":"0","data":"{"}"#,
        r#"{"action":"result","code":"0","data":"{}"}"#,
    ] {
        let (go_on, reaction) = asr.handle_text_message(text);
        assert!(go_on);
        assert!(matches!(reaction, Reaction::Ignored), "{text}");
    }
    assert!(!asr.state.task_started && !asr.state.task_finished);
    assert_eq!(asr.state.last_result_text, "");
}

#[test]
fn result_message_is_stored() {
    let mut asr = open();
    let text = r#"{"action":"result","code":"0","data":"{\"cn\":{\"st\":{\"rt\":[{\"ws\":[{\"cw\":[{\"w\":\"hi\"}]}]}],\"type\":\"0\"}},\"seg_id\":4}"}"#;
    let (go_on, reaction) = asr.handle_text_message(text);
    assert!(go_on);
    assert!(matches!(reaction, Reaction::Stored));
    assert_eq!(asr.state.final_segments.get(&4).unwrap(), "hi");
    assert_eq!(asr.state.last_result_text, "hi");
}

#[test]
fn server_error_ends_the_session() {
    let mut asr = open();
    let (go_on, reaction) =
        asr.handle_text_message(r#"{"action":"error","code":"10110","desc":"no license"}"#);
    assert!(!go_on);
    match reaction {
        Reaction::Closed(Some(Err(error))) => {
            assert_eq!(error.message(), "server error 10110: no license")
        }
        other => panic!("no error: {other:?}"),
    }
    assert!(asr.state.task_finished && !asr.state.sending && !asr.state.promised);
    let (go_on, reaction) = asr.handle_text_message(r#"{"action":"error"}"#);
    assert!(!go_on);
    assert!(matches!(reaction, Reaction::Ignored));
}

#[test]
fn server_error_without_description() {
    let mut asr = open();
    let (_, reaction) = asr.handle_message(&message(&[("action", "error")]));
    match reaction {
        Reaction::Closed(Some(Err(XfyunASRError::ServerError { code, desc }))) => {
            assert_eq!(code, "");
            assert_eq!(desc, "unknown error");
        }
        other => panic!("no error: {other:?}"),
    }
}

#[test]
fn final_text_displaces_interim_text_and_not_the_other_way() {
    let mut asr = open();
    asr.handle_message(&result(2, "1", "draft"));
    asr.handle_message(&result(2, "0", "done"));
    assert!(asr.state.partial_segments.is_empty());
    asr.handle_message(&result(2, "1", "late draft"));
    asr.handle_message(&result(1, "1", "first "));
    let (go_on, reaction) = asr.receive(SocketEvent::Closed, None);
    assert!(!go_on);
    assert_eq!(transcript(reaction).text, "first done");
}

#[test]
fn closing_without_text_is_an_error() {
    let mut asr = open();
    let (go_on, reaction) = asr.receive(SocketEvent::Closed, Some(5));
    assert!(!go_on);
    assert!(matches!(
        reaction,
        Reaction::Closed(Some(Err(XfyunASRError::NoFinalResult)))
    ));
    let mut asr = open();
    let (go_on, reaction) = asr.receive(SocketEvent::Failed("reset".into()), None);
    assert!(!go_on);
    match reaction {
        Reaction::Closed(Some(Err(error))) => {
            assert_eq!(error.message(), "connection failed: reset")
        }
        other => panic!("no error: {other:?}"),
    }
}

#[test]
fn broken_connection_keeps_the_text() {
    let mut asr = open();
    asr.handle_message(&result(0, "1", "half"));
    let (go_on, reaction) = asr.receive(SocketEvent::Failed("reset".into()), Some(1234));
    assert!(!go_on);
    let transcript = transcript(reaction);
    assert_eq!(transcript.text, "half");
    assert_eq!(transcript.duration_ms, 1234);
}

#[test]
fn other_socket_events_are_ignored() {
    let mut asr = open();
    let (go_on, reaction) = asr.receive(SocketEvent::Other, None);
    assert!(go_on);
    assert!(matches!(reaction, Reaction::Ignored));
    let (go_on, reaction) = asr.receive(SocketEvent::Text(r#"{"action":"started"}"#.into()), None);
    assert!(go_on);
    assert!(matches!(reaction, Reaction::Started(frames) if frames.is_empty()));
}

#[test]
fn duration_is_measured_by_the_audio() {
    let mut asr = open();
    asr.consume_pcm_chunk(&[0; 100]);
    asr.handle_message(&result(0, "0", "x"));
    assert_eq!(transcript(asr.finish_success(Some(99999))).duration_ms, 3);
    let mut asr = open();
    asr.handle_message(&result(0, "0", "x"));
    assert_eq!(transcript(asr.finish_success(None)).duration_ms, 0);
}

#[test]
fn outcome_is_delivered_once() {
    let mut asr = open();
    assert_eq!(transcript(asr.finish_success(None)).text, "");
    assert!(matches!(asr.finish_success(None), Reaction::Ignored));
    assert!(matches!(
        asr.finish_error(XfyunASRError::NoFinalResult),
        Reaction::Ignored
    ));
    let mut unopened = XfyunStreamingASR::new(credentials());
    assert!(matches!(
        unopened.finish_error(XfyunASRError::NoFinalResult),
        Reaction::Closed(None)
    ));
}

#[test]
fn last_text_is_used_without_segments_unless_blank() {
    let mut asr = open();
    asr.state.last_result_text = " kept ".into();
    assert_eq!(asr.build_partial_result(None).unwrap().text, " kept ");
    asr.state.last_result_text = " \u{3000} ".into();
    assert!(asr.build_partial_result(None).is_none());
}

#[test]
fn waiting_ends_with_the_delivered_outcome() {
    let mut asr = open();
    assert!(matches!(
        asr.await_final_result(WaitEvent::Begin, None),
        WaitStep::Wait
    ));
    assert!(matches!(
        asr.await_final_result(WaitEvent::ResultArrived, None),
        WaitStep::Wait
    ));
    let outcome = Ok(RawTranscript {
        text: "t".into(),
        duration_ms: 9,
    });
    match asr.await_final_result(WaitEvent::Delivered(outcome), None) {
        WaitStep::Done {
            close: false,
            outcome: Ok(transcript),
        } => {
            assert_eq!(transcript.text, "t");
            assert_eq!(transcript.duration_ms, 9);
        }
        other => panic!("no outcome: {other:?}"),
    }
    for event in [WaitEvent::Dropped, WaitEvent::Begin] {
        assert!(matches!(
            asr.await_final_result(event, None),
            WaitStep::Done {
                close: false,
                outcome: Err(XfyunASRError::NoFinalResult)
            }
        ));
    }
}

#[test]
fn silence_returns_what_was_recognised() {
    let mut asr = open();
    asr.await_final_result(WaitEvent::Begin, None);
    asr.consume_pcm_chunk(&[0; 640]);
    asr.handle_message(&result(1, "1", "good morning"));
    asr.handle_message(&result(0, "0", "hello, good"));
    match asr.await_final_result(WaitEvent::Silence, Some(7)) {
        WaitStep::Done {
            close: true,
            outcome: Ok(transcript),
        } => {
            assert_eq!(transcript.text, "hello, good morning");
            assert_eq!(transcript.duration_ms, 20);
        }
        other => panic!("no transcript: {other:?}"),
    }
    assert!(asr.state.task_finished);
    assert!(matches!(asr.finish_success(None), Reaction::Ignored));
    assert_eq!(SILENCE_TIMEOUT_SECS, 2);
}

#[test]
fn silence_without_text_is_a_timeout() {
    let mut asr = open();
    assert!(matches!(
        asr.await_final_result(WaitEvent::Silence, Some(7)),
        WaitStep::Done {
            close: false,
            outcome: Err(XfyunASRError::FinalResultTimeout)
        }
    ));
    assert!(asr.state.task_finished);
}

#[test]
fn cancelled_session_is_silent() {
    let mut asr = open();
    asr.consume_pcm_chunk(&[5; 3000]);
    asr.cancel();
    assert!(asr.state.pending_audio.is_empty() && asr.state.audio_scratch.is_empty());
    assert!(matches!(
        asr.send_last_frame(LastFrameEvent::Begin),
        LastFrameStep::Done(Ok(()))
    ));
    assert!(asr.mark_task_started().is_empty());
    assert!(asr.consume_pcm_chunk(&[5; 3000]).is_empty());
    let (_, reaction) = asr.receive(SocketEvent::Closed, None);
    assert!(matches!(reaction, Reaction::Ignored));
}

#[test]
fn errors_in_words() {
    assert_eq!(XfyunASRError::CredentialsMissing.message(), "credentials missing");
    assert_eq!(
        XfyunASRError::ConnectionFailed("x".into()).message(),
        "connection failed: x"
    );
    assert_eq!(
        XfyunASRError::SignaFailed("y".into()).message(),
        "signa generation failed: y"
    );
    assert_eq!(XfyunASRError::NoFinalResult.message(), "no final result");
    assert_eq!(
        XfyunASRError::FinalResultTimeout.message(),
        "final result timed out"
    );
    assert_eq!(xfyun_rtasr::PROVIDER_ID, "xfyun-rtasr");
}
