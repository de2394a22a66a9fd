use base64::Engine;
use koe_asr::provider::OpenAiRealtimeAsrProvider;
use koe_asr::types::{AsrConfig, AsrError};
use koe_asr::wire::{
    binary_fault, build_audio_append, build_audio_commit, extract_error_message, new_event_id,
    read_binary_message, read_message, read_text_message, text_fault, ServerMessage,
};
use serde_json::Value;

fn config(language: Option<&str>, prompt: Option<&str>, model: Option<&str>) -> AsrConfig {
    AsrConfig {
        url: "wss://h/".to_string(),
        access_key: "k".to_string(),
        connect_timeout_ms: 1000,
        model: None,
        language: language.map(|s| s.to_string()),
        prompt: prompt.map(|s| s.to_string()),
        transcription_model: model.map(|s| s.to_string()),
        openai_realtime_backend: None,
    }
}

fn message(
    event_type: Option<&str>,
    transcript: Option<&str>,
    error_message: Option<&str>,
    message: Option<&str>,
) -> ServerMessage {
    ServerMessage {
        event_type: event_type.map(|s| s.to_string()),
        transcript: transcript.map(|s| s.to_string()),
        error_message: error_message.map(|s| s.to_string()),
        message: message.map(|s| s.to_string()),
    }
}

fn parsed(text: &str) -> Value {
    serde_json::from_str(text).unwrap()
}

#[test]
fn the_session_update_has_defaults() {
    let expected = parsed(
        r#"{"type":"session.update","session":{"type":"transcription","audio":{"input":{
        "format":{"type":"audio/pcm","rate":24000},"turn_detection":null,
        "transcription":{"model":"gpt-4o-mini-transcribe","language":"zh","prompt":""}}}}}"#,
    );
    assert_eq!(OpenAiRealtimeAsrProvider::build_session_update(&config(None, None, None)), expected);
    assert_eq!(OpenAiRealtimeAsrProvider::build_session_update(&config(None, None, Some(""))), expected);
}

#[test]
fn the_session_update_holds_the_settings() {
    let built = OpenAiRealtimeAsrProvider::build_session_update(&config(Some("en"), Some("a \"b\""), Some(" m")));
    let input = &built["session"]["audio"]["input"];
    assert_eq!(input["transcription"]["model"], " m");
    assert_eq!(input["transcription"]["language"], "en");
    assert_eq!(input["transcription"]["prompt"], "a \"b\"");
    assert_eq!(input["format"]["rate"], 24000);
    assert_eq!(input["turn_detection"], Value::Null);
    let empty = OpenAiRealtimeAsrProvider::build_session_update(&config(Some(""), None, None));
    assert_eq!(empty["session"]["audio"]["input"]["transcription"]["language"], "");
}

#[test]
fn audio_goes_out_as_base64() {
    let expected = parsed(r#"{"event_id":"e","type":"input_audio_buffer.append","audio":"AAEC/v8="}"#);
    assert_eq!(build_audio_append("e", &[0, 1, 2, 254, 255]), expected);
    assert_eq!(build_audio_append("e", b"hel")["audio"], "aGVs");
    assert_eq!(build_audio_append("e", b"hell")["audio"], "aGVsbA==");
    assert_eq!(build_audio_append("e", &[])["audio"], "");
    assert_eq!(build_audio_append("e", &[0xfb, 0xff, 0xbf])["audio"], "+/+/");
}

#[test]
fn audio_is_read_back_from_base64() {
    let bytes: Vec<u8> = (0..=255).collect();
    let built = build_audio_append("e", &bytes);
    let text = built["audio"].as_str().unwrap();
    assert_eq!(base64::engine::general_purpose::STANDARD.decode(text).unwrap(), bytes);
}

#[test]
fn a_commit_has_a_name_and_a_type() {
    assert_eq!(
        build_audio_commit("e1"),
        parsed(r#"{"event_id":"e1","type":"input_audio_buffer.commit"}"#)
    );
}

#[test]
fn event_names_are_random_uuids() {
    let a = new_event_id();
    let b = new_event_id();
    assert_ne!(a, b);
    for id in [a, b] {
        let chars: Vec<char> = id.chars().collect();
        assert_eq!(chars.len(), 42);
        assert!(id.starts_with("event_"));
        for (i, c) in chars[6..].iter().enumerate() {
            if i == 8 || i == 13 || i == 18 || i == 23 {
                assert_eq!(*c, '-');
            } else {
                assert!(c.is_ascii_digit() || ('a'..='f').contains(c));
            }
        }
        assert_eq!(chars[20], '4');
        assert!(matches!(chars[25], '8' | '9' | 'a' | 'b'));
    }
}

#[test]
fn the_texts_that_matter_are_read() {
    let value = parsed(
        r#"{"type":"error","transcript":"t","message":"outer","error":{"message":"inner","code":3},"x":[1]}"#,
    );
    assert_eq!(
        read_message(&value),
        message(Some("error"), Some("t"), Some("inner"), Some("outer"))
    );
    let value = parsed(r#"{"type":7,"transcript":null,"message":["m"],"error":"e"}"#);
    assert_eq!(read_message(&value), message(None, None, None, None));
    assert_eq!(read_message(&parsed("[1]")), message(None, None, None, None));
    assert_eq!(read_message(&parsed("\"type\"")), message(None, None, None, None));
}

#[test]
fn texts_and_bytes_say_the_same() {
    let text = "{\"type\":\"a\",\"transcript\":\"\u{4f60}\\u597d\"}";
    let expected = message(Some("a"), Some("\u{4f60}\u{597d}"), None, None);
    assert_eq!(read_text_message(text).unwrap(), expected);
    assert_eq!(read_binary_message(text.as_bytes()).unwrap(), expected);
}

#[test]
fn what_is_not_json_is_told() {
    let error = serde_json::from_str::<Value>("{").unwrap_err().to_string();
    assert_eq!(
        read_text_message("{"),
        Err(AsrError::Protocol(format!("parse server event: {error}")))
    );
    assert_eq!(
        read_binary_message(b"{"),
        Err(AsrError::Protocol(format!("parse binary server event: {error}")))
    );
    assert!(read_binary_message(b"\"\xff\"").is_err());
    assert_eq!(text_fault("x"), AsrError::Protocol("parse server event: x".to_string()));
    assert_eq!(binary_fault("x"), AsrError::Protocol("parse binary server event: x".to_string()));
}

#[test]
fn the_innermost_error_text_comes_first() {
    assert_eq!(extract_error_message(&message(None, None, Some("in"), Some("out"))), "in");
    assert_eq!(extract_error_message(&message(None, None, None, Some("out"))), "out");
    assert_eq!(extract_error_message(&message(None, None, None, None)), "Unknown error");
}
