use base64::Engine;
use koe_asr::provider::{
    AudioMessage, ConnectStep, DialOutcome, FirstRead, NextStep, OpenAiRealtimeAsrProvider,
};
use koe_asr::types::{AsrConfig, AsrError, AsrEvent, Incoming};
use koe_asr::wire::ServerMessage;
use serde_json::Value;

fn config() -> AsrConfig {
    AsrConfig {
        url: "wss://h/".to_string(),
        access_key: "k".to_string(),
        connect_timeout_ms: 1000,
        model: None,
        language: Some("en".to_string()),
        prompt: None,
        transcription_model: None,
        openai_realtime_backend: None,
    }
}

fn connected() -> OpenAiRealtimeAsrProvider {
    let mut p = OpenAiRealtimeAsrProvider::new();
    assert!(matches!(p.dialed(DialOutcome::Established), ConnectStep::ReadCreated));
    p
}

fn message(event_type: &str, transcript: Option<&str>) -> ServerMessage {
    ServerMessage {
        event_type: Some(event_type.to_string()),
        transcript: transcript.map(|s| s.to_string()),
        error_message: None,
        message: None,
    }
}

fn text(s: &str) -> Incoming {
    Incoming::Text(s.to_string())
}

fn completed(transcript: &str) -> Incoming {
    text(&format!(
        "{{\"type\":\"conversation.item.input_audio_transcription.completed\",\"transcript\":\"{transcript}\"}}"
    ))
}

fn definite(s: &str) -> AsrEvent {
    AsrEvent::Definite(s.to_string())
}

fn last(s: &str) -> AsrEvent {
    AsrEvent::Final(s.to_string())
}

fn delivered(step: NextStep) -> AsrEvent {
    match step {
        NextStep::Deliver(event) => event,
        other => panic!("{other:?}"),
    }
}

fn failed(step: NextStep) -> AsrError {
    match step {
        NextStep::Fail(error) => error,
        other => panic!("{other:?}"),
    }
}

fn finished(step: ConnectStep) -> Result<(), AsrError> {
    match step {
        ConnectStep::Finished(outcome) => outcome,
        other => panic!("{other:?}"),
    }
}

fn connection(s: &str) -> AsrError {
    AsrError::Connection(s.to_string())
}

fn protocol(s: &str) -> AsrError {
    AsrError::Protocol(s.to_string())
}

fn audio_of(sent: &str) -> Vec<u8> {
    let value: Value = serde_json::from_str(sent).unwrap();
    assert_eq!(value["type"], "input_audio_buffer.append");
    assert!(value["event_id"].as_str().unwrap().starts_with("event_"));
    base64::engine::general_purpose::STANDARD.decode(value["audio"].as_str().unwrap()).unwrap()
}

fn is_commit(sent: &str) -> bool {
    let value: Value = serde_json::from_str(sent).unwrap();
    value["type"] == "input_audio_buffer.commit"
        && value["event_id"].as_str().unwrap().starts_with("event_")
        && value.as_object().unwrap().len() == 2
}

#[test]
fn a_new_session_is_not_connected() {
    let mut p = OpenAiRealtimeAsrProvider::default();
    assert!(!p.is_connected());
    assert_eq!(failed(p.next_event()), connection("not connected"));
    assert!(!p.close());
}

#[test]
fn messages_give_events() {
    let mut p = connected();
    assert_eq!(p.parse_server_event(message("session.created", None)), vec![]);
    assert_eq!(p.parse_server_event(message("session.updated", None)), vec![AsrEvent::Connected]);
    assert_eq!(p.parse_server_event(message("something.else", Some("t"))), vec![]);
    let kind = "conversation.item.input_audio_transcription.completed";
    assert_eq!(p.parse_server_event(message(kind, Some(" \u{3000}hi\n"))), vec![definite("hi")]);
    assert_eq!(p.parse_server_event(message(kind, Some("  "))), vec![]);
    assert_eq!(p.parse_server_event(message(kind, None)), vec![]);
    let failure = "conversation.item.input_audio_transcription.failed";
    assert_eq!(
        p.parse_server_event(message(failure, None)),
        vec![AsrEvent::Error("Unknown error".to_string())]
    );
    let mut error = message("error", None);
    error.error_message = Some("bad".to_string());
    assert_eq!(p.parse_server_event(error), vec![AsrEvent::Error("bad".to_string())]);
    let nameless = ServerMessage { event_type: None, transcript: None, error_message: None, message: None };
    assert_eq!(p.parse_server_event(nameless), vec![]);
}

#[test]
fn the_final_text_follows_the_end_of_input() {
    let mut p = connected();
    assert_eq!(delivered(p.receive(completed("one"))), definite("one"));
    assert!(matches!(p.next_event(), NextStep::Read));
    assert_eq!(p.send_audio(&[1, 0, 3, 0]).unwrap().is_some(), true);
    assert_eq!(p.finish_input().unwrap().len(), 1);
    assert_eq!(delivered(p.receive(completed("two"))), definite("two"));
    assert_eq!(delivered(p.next_event()), last("two"));
    assert!(matches!(p.next_event(), NextStep::Read));
    assert_eq!(delivered(p.receive(completed("three"))), definite("three"));
    assert!(matches!(p.next_event(), NextStep::Read));
    assert_eq!(delivered(p.receive(Incoming::Ended)), AsrEvent::Closed);
}

#[test]
fn without_audio_the_final_text_is_due_at_once() {
    let mut p = connected();
    assert_eq!(delivered(p.receive(completed("one"))), definite("one"));
    assert_eq!(p.finish_input().unwrap(), Vec::<String>::new());
    assert_eq!(delivered(p.next_event()), last("one"));
    assert_eq!(p.finish_input().unwrap(), Vec::<String>::new());
    assert!(matches!(p.next_event(), NextStep::Read));
}

#[test]
fn an_ended_socket_hands_out_the_final_text_and_then_closes() {
    for end in [Incoming::Ended, Incoming::Close("None".to_string())] {
        let mut p = connected();
        assert_eq!(delivered(p.receive(completed("one"))), definite("one"));
        assert_eq!(delivered(p.receive(end)), last("one"));
        assert_eq!(delivered(p.receive(Incoming::Ended)), AsrEvent::Closed);
        assert_eq!(delivered(p.receive(Incoming::Ended)), AsrEvent::Closed);
    }
}

#[test]
fn closing_queues_the_final_text() {
    let mut p = connected();
    assert_eq!(delivered(p.receive(completed("one"))), definite("one"));
    assert!(p.close());
    assert!(!p.is_connected());
    assert_eq!(delivered(p.next_event()), last("one"));
    assert_eq!(failed(p.next_event()), connection("not connected"));
    assert!(!p.close());
    p.maybe_queue_final();
    assert_eq!(failed(p.next_event()), connection("not connected"));
}

#[test]
fn events_come_in_order() {
    let mut p = connected();
    assert!(p.finish_input().unwrap().is_empty());
    assert_eq!(delivered(p.receive(completed("a"))), definite("a"));
    let failure = text("{\"type\":\"error\",\"message\":\"b\"}");
    assert_eq!(delivered(p.receive(failure)), last("a"));
    assert_eq!(delivered(p.next_event()), AsrEvent::Error("b".to_string()));
}

#[test]
fn heartbeats_and_others_are_passed_over() {
    let mut p = connected();
    assert!(matches!(p.receive(Incoming::Heartbeat), NextStep::Read));
    assert!(matches!(p.receive(Incoming::Other("x".to_string())), NextStep::Read));
    assert!(matches!(p.receive(text("{}")), NextStep::Read));
    assert!(matches!(p.receive(Incoming::Binary(b"[]".to_vec())), NextStep::Read));
}

#[test]
fn socket_errors_are_told() {
    let mut p = connected();
    assert_eq!(failed(p.receive(Incoming::Failed("gone".to_string()))), protocol("gone"));
    match failed(p.receive(text("{"))) {
        AsrError::Protocol(text) => assert!(text.starts_with("parse server event: ")),
        other => panic!("{other:?}"),
    }
    match failed(p.receive(Incoming::Binary(vec![0xff]))) {
        AsrError::Protocol(text) => assert!(text.starts_with("parse binary server event: ")),
        other => panic!("{other:?}"),
    }
    assert_eq!(failed(p.receive_message(Err(protocol("p")))), protocol("p"));
    assert_eq!(
        delivered(p.receive_message(Ok(message("session.updated", None)))),
        AsrEvent::Connected
    );
}

#[test]
fn audio_is_upsampled_and_sent() {
    let mut p = connected();
    assert_eq!(p.send_audio(&[]).unwrap(), None);
    assert_eq!(p.send_audio(&[7, 0]).unwrap(), None);
    let sent = p.send_audio(&[9, 0]).unwrap().unwrap();
    assert_eq!(audio_of(&sent), vec![7, 0, 8, 0, 9, 0]);
}

#[test]
fn what_is_left_is_sent_and_committed() {
    let mut p = connected();
    assert_eq!(p.send_audio(&[7, 0]).unwrap(), None);
    let sent = p.finish_input().unwrap();
    assert_eq!(sent.len(), 2);
    assert_eq!(audio_of(&sent[0]), vec![7, 0, 7, 0]);
    assert!(is_commit(&sent[1]));
    assert_eq!(p.finish_input().unwrap(), Vec::<String>::new());
}

#[test]
fn committed_audio_is_not_committed_again() {
    let mut p = connected();
    assert!(p.send_audio(&[1, 0, 3, 0]).unwrap().is_some());
    p.parse_server_event(message("input_audio_buffer.committed", None));
    assert_eq!(p.close_input(), vec![]);
    let mut p = connected();
    assert!(p.send_audio(&[1, 0, 3, 0]).unwrap().is_some());
    assert_eq!(p.close_input(), vec![AudioMessage::Commit]);
}

#[test]
fn all_audio_is_sent_however_it_is_cut() {
    let input: Vec<u8> = (0..22).collect();
    let mut whole = connected();
    let mut expected = whole.take_audio(&input).unwrap();
    match &whole.close_input()[0] {
        AudioMessage::Append(rest) => expected.extend(rest),
        other => panic!("{other:?}"),
    }
    let mut p = connected();
    let mut sent = Vec::new();
    for frame in input.chunks(4) {
        if let Some(audio) = p.take_audio(frame) {
            sent.extend(audio);
        }
    }
    for message in p.close_input() {
        if let AudioMessage::Append(rest) = message {
            sent.extend(rest);
        }
    }
    assert_eq!(sent, expected);
    assert_eq!(expected.len(), 2 * (3 * 5 + 2));
}

#[test]
fn nothing_is_sent_without_a_socket() {
    let mut p = OpenAiRealtimeAsrProvider::new();
    assert_eq!(p.send_audio(&[1, 0]), Ok(None));
    assert_eq!(p.send_audio(&[1, 0]), Err(connection("not connected")));
    assert_eq!(p.finish_input(), Err(connection("not connected")));
    assert_eq!(p.finish_input(), Ok(vec![]));
    assert_eq!(
        OpenAiRealtimeAsrProvider::send_failed("x"),
        protocol("send client event: x")
    );
}

#[test]
fn a_reset_forgets_everything() {
    let mut p = connected();
    p.receive(completed("one"));
    p.send_audio(&[1, 0]).unwrap();
    p.finish_input().unwrap();
    p.reset_runtime_state();
    assert!(!p.is_connected());
    assert_eq!(failed(p.next_event()), connection("not connected"));
    assert_eq!(p.finish_input().unwrap(), Vec::<String>::new());
    assert_eq!(failed(p.next_event()), connection("not connected"));
}

#[test]
fn dialing_may_fail() {
    let mut p = OpenAiRealtimeAsrProvider::new();
    assert_eq!(finished(p.dialed(DialOutcome::Failed("no".to_string()))), Err(connection("no")));
    assert_eq!(finished(p.dialed(DialOutcome::TimedOut)), Err(connection("connection timed out")));
    assert!(!p.is_connected());
}

#[test]
fn the_first_message_is_read() {
    let read = OpenAiRealtimeAsrProvider::read_text_event;
    let fault = |arrival: Option<Incoming>| match OpenAiRealtimeAsrProvider::read_text_event(arrival) {
        FirstRead::Fail(error) => error,
        other => panic!("{other:?}"),
    };
    assert!(matches!(read(Some(Incoming::Heartbeat)), FirstRead::Again));
    for arrival in [text("{\"type\":\"t\"}"), Incoming::Binary(b"{\"type\":\"t\"}".to_vec())] {
        match read(Some(arrival)) {
            FirstRead::Message(m) => assert_eq!(m, message("t", None)),
            other => panic!("{other:?}"),
        }
    }
    assert_eq!(fault(None), connection("timeout waiting for server event"));
    assert_eq!(fault(Some(Incoming::Ended)), connection("connection closed"));
    assert_eq!(fault(Some(Incoming::Failed("e".to_string()))), connection("WebSocket error: e"));
    assert_eq!(
        fault(Some(Incoming::Close("None".to_string()))),
        connection("connection closed unexpectedly: None")
    );
    assert_eq!(
        fault(Some(Incoming::Other("Frame".to_string()))),
        protocol("unexpected websocket message: Frame")
    );
    assert!(matches!(fault(Some(text("{"))), AsrError::Protocol(t) if t.starts_with("parse server event: ")));
}

#[test]
fn connecting_takes_its_steps() {
    let mut p = connected();
    let c = config();
    assert!(matches!(p.session_created(&c, Some(Incoming::Heartbeat)), ConnectStep::ReadCreated));
    let sent = match p.session_created(&c, Some(text("{\"type\":\"session.created\"}"))) {
        ConnectStep::SendUpdate(sent) => sent,
        other => panic!("{other:?}"),
    };
    let value: Value = serde_json::from_str(&sent).unwrap();
    assert_eq!(value, OpenAiRealtimeAsrProvider::build_session_update(&c));
    assert!(matches!(p.update_sent(None), ConnectStep::ReadUpdated));
    assert!(matches!(p.session_updated(Incoming::Heartbeat), ConnectStep::ReadUpdated));
    assert!(matches!(p.session_updated(completed("early")), ConnectStep::ReadUpdated));
    assert_eq!(finished(p.session_updated(text("{\"type\":\"session.updated\"}"))), Ok(()));
    assert!(p.is_connected());
    assert!(matches!(p.next_event(), NextStep::Read));
}

#[test]
fn another_greeting_is_refused() {
    let mut p = connected();
    let c = config();
    assert_eq!(
        finished(p.session_created(&c, Some(text("{\"type\":\"session.updated\"}")))),
        Err(connection("expected session.created event, got session.updated"))
    );
    assert_eq!(
        finished(p.session_created(&c, Some(text("{}")))),
        Err(connection("expected session.created event, got unknown"))
    );
    assert_eq!(
        finished(p.session_created(&c, None)),
        Err(connection("timeout waiting for server event"))
    );
    let mut offline = OpenAiRealtimeAsrProvider::new();
    assert_eq!(
        finished(offline.greeted(&c, message("session.created", None))),
        Err(connection("not connected"))
    );
}

#[test]
fn settings_may_not_be_sent_or_taken() {
    let mut p = connected();
    assert_eq!(
        finished(p.update_sent(Some("broken".to_string()))),
        Err(protocol("send client event: broken"))
    );
    assert_eq!(
        finished(p.session_updated(text("{\"type\":\"error\",\"error\":{\"message\":\"bad\"}}"))),
        Err(protocol("bad"))
    );
    assert_eq!(
        finished(p.session_updated(Incoming::Ended)),
        Err(connection("connection closed before session.updated"))
    );
    assert_eq!(
        finished(p.session_updated(Incoming::Failed("gone".to_string()))),
        Err(protocol("gone"))
    );
    let mut offline = OpenAiRealtimeAsrProvider::new();
    assert_eq!(finished(offline.update_sent(None)), Err(connection("not connected")));
}

#[test]
fn only_tidy_transcripts_are_told() {
    let mut p = connected();
    assert!(matches!(p.receive(completed(" ")), NextStep::Read));
    assert!(matches!(p.receive(completed("\u{2003}\u{3000}")), NextStep::Read));
    assert!(p.finish_input().unwrap().is_empty());
    assert!(matches!(p.next_event(), NextStep::Read));
    assert_eq!(delivered(p.receive(completed("\u{a0}a b\u{85}"))), definite("a b"));
    assert_eq!(delivered(p.next_event()), last("a b"));
}

#[test]
fn a_connected_session_has_taken_in_no_audio() {
    let mut p = connected();
    let c = config();
    let mut sent = 0;
    let mut step = p.session_created(&c, Some(text("{\"type\":\"session.created\"}")));
    let mut answers = vec![
        text("{\"type\":\"session.updated\"}"),
        Incoming::Heartbeat,
        text("{\"type\":\"other\"}"),
    ];
    loop {
        step = match step {
            ConnectStep::SendUpdate(_) => {
                sent += 1;
                p.update_sent(None)
            }
            ConnectStep::ReadUpdated => p.session_updated(answers.pop().unwrap()),
            ConnectStep::Finished(outcome) => {
                assert_eq!(outcome, Ok(()));
                break;
            }
            other => panic!("{other:?}"),
        };
    }
    assert_eq!(sent, 1);
    assert!(p.is_connected());
    assert!(matches!(p.next_event(), NextStep::Read));
    assert_eq!(p.close_input(), vec![]);
}

#[test]
fn a_transcript_from_before_may_become_the_final_text() {
    let mut p = connected();
    assert!(matches!(p.session_updated(completed("early")), ConnectStep::ReadUpdated));
    assert_eq!(finished(p.session_updated(text("{\"type\":\"session.updated\"}"))), Ok(()));
    assert!(p.close());
    assert_eq!(delivered(p.next_event()), last("early"));
    assert_eq!(failed(p.next_event()), connection("not connected"));
}

#[test]
fn connecting_passes_over_the_final_text_too() {
    let mut p = connected();
    assert!(matches!(p.session_updated(completed("early")), ConnectStep::ReadUpdated));
    let end = Incoming::Close("None".to_string());
    assert!(matches!(p.session_updated(end), ConnectStep::ReadUpdated));
    assert_eq!(
        finished(p.session_updated(Incoming::Ended)),
        Err(connection("connection closed before session.updated"))
    );
}
