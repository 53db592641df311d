//! The session logic of a client for iFlytek's real-time speech recognition
//! service, proved correct and free of I/O.

pub mod audio;
pub mod clock;
pub mod conduct;
pub mod error;
pub mod json;
pub mod laws;
pub mod protocol;
pub mod segments;
pub mod session;
pub mod signing;
pub mod text;
pub mod words;

pub use audio::{drain_audio_chunks, TARGET_AUDIO_CHUNK_BYTES};
pub use error::XfyunASRError;
pub use json::Json;
pub use segments::merge_segments;
pub use session::{RawTranscript, XfyunStreamingASR, PROVIDER_ID};
pub use signing::{build_session_url, XfyunCredentials, DEFAULT_ENDPOINT, DEFAULT_LANG};
pub use words::extract_words;
