//! Realtime speech recognition over a websocket.
//!
//! The library holds everything of a recognition session but the socket: the
//! request that opens it (`request`, `query`), the audio that goes out on it
//! (`resample`, `wire`), the messages that come in from it (`wire`), and the
//! session that decides what follows (`provider`). What holds of these
//! together, whatever comes in and over many calls, is stated in `audio_laws`,
//! `message_laws`, `query_laws`, `request_laws` and `session_laws`. JSON is read
//! and written by `serde_json`, behind the small set of functions in `json`.

pub mod audio_laws;
pub mod json;
pub mod message_laws;
pub mod provider;
pub mod query;
pub mod query_laws;
pub mod request;
pub mod request_laws;
pub mod resample;
pub mod session_laws;
pub mod text;
pub mod types;
pub mod wire;
