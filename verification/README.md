# xfyun-rtasr

The session logic of a client for iFlytek's real-time speech recognition service, written in
Verus: every function states what it does, and Verus proves it.

The library does no I/O. A session is told what happened (audio came, a message arrived, nothing
came for too long) and answers what is to be done (send these frames, deliver this transcript,
close the connection).

- `src/audio.rs`: cutting PCM into frames of 40 ms
- `src/json.rs`, `src/words.rs`: JSON values, and the recognised words in a result
- `src/segments.rs`: merging the segments of an utterance into one text
- `src/signing.rs`, `src/clock.rs`, `src/text.rs`: the signed address of a session
- `src/error.rs`: what can go wrong
- `src/protocol.rs`: the states of a session and its steps, as mathematical values
- `src/session.rs`: the session itself
- `src/laws.rs`: what holds of a session whatever happens to it and in whatever order
- `app/`: the client around the library, with the WebSocket, the queue and the clock
