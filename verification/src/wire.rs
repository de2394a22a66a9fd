//! The messages of the realtime protocol: those that go out to the service and
//! those that come in from it.

use vstd::prelude::*;
use vstd::utf8::{decode_utf8, valid_utf8};

use crate::json::{
    insert_member, json_of, json_parse, json_parse_bytes, member, new_members,
    null_value, number_value, object_value, parse_bytes, parse_text, text_member, text_value, Json,
};
use crate::provider::{update_of, OpenAiRealtimeAsrProvider};
use crate::text::{joined, optional};
use crate::types::{AsrConfig, AsrError, Fault};

verus! {

/// The sample rate of the audio that is sent, in hertz.
pub const TARGET_SAMPLE_RATE_HZ: u32 = 24_000;

/// The base64 digit for a value below 64.
pub open spec fn base64_digit(value: int) -> char {
    (if value < 26 {
        'A' as int + value
    } else if value < 52 {
        'a' as int + value - 26
    } else if value < 62 {
        '0' as int + value - 52
    } else if value == 62 {
        '+' as int
    } else {
        '/' as int
    }) as char
}

/// The length of the base64 text for `length` bytes.
pub open spec fn base64_length(length: nat) -> nat {
    (length + 2) / 3 * 4
}

/// The bytes as base64 text with the standard alphabet and padding: every
/// three bytes are one 24-bit number, written as four digits.
pub open spec fn base64_text(bytes: Seq<u8>) -> Seq<char> {
    Seq::new(
        base64_length(bytes.len()),
        |i: int|
            {
                let start = 3 * (i / 4);
                let byte = |k: int|
                    if start + k < bytes.len() {
                        bytes[start + k] as int
                    } else {
                        0
                    };
                let group = byte(0) * 0x10000 + byte(1) * 0x100 + byte(2);
                if start + i % 4 > bytes.len() {
                    '='
                } else if i % 4 == 0 {
                    base64_digit(group / 0x40000)
                } else if i % 4 == 1 {
                    base64_digit(group / 0x1000 % 0x40)
                } else if i % 4 == 2 {
                    base64_digit(group / 0x40 % 0x40)
                } else {
                    base64_digit(group % 0x40)
                }
            },
    )
}

/// The `encode` of the `base64` crate's `STANDARD` engine returns the base64
/// text of the bytes, padded. It panics where that text cannot be held.
#[verifier::external_body]
pub(crate) fn base64_encode(bytes: &[u8]) -> (text: String)
    requires
        base64_length(bytes@.len()) <= isize::MAX,
    ensures
        text@ == base64_text(bytes@),
{
    base64::Engine::encode(&base64::engine::general_purpose::STANDARD, bytes)
}

/// Whether `c` is a lower-case hexadecimal digit.
pub open spec fn is_hex_digit(c: char) -> bool {
    '0' <= c <= '9' || 'a' <= c <= 'f'
}

/// Whether `id` is a random UUID as text: groups of hexadecimal digits with
/// hyphens between them, the version 4 and the variant that goes with it.
pub open spec fn is_random_uuid(id: Seq<char>) -> bool {
    &&& id.len() == 36
    &&& forall|i: int|
        0 <= i < 36 ==> if i == 8 || i == 13 || i == 18 || i == 23 {
            #[trigger] id[i] == '-'
        } else {
            is_hex_digit(id[i])
        }
    &&& id[14] == '4'
    &&& id[19] == '8' || id[19] == '9' || id[19] == 'a' || id[19] == 'b'
}

/// `Uuid::new_v4` draws a random UUID, and `to_string` writes it with hyphens
/// and in lower case. Which one it is, is left to chance. It panics where the
/// system gives no random bytes.
#[verifier::external_body]
pub(crate) fn random_uuid() -> (id: String)
    ensures
        is_random_uuid(id@),
{
    uuid::Uuid::new_v4().to_string()
}

/// Whether `id` names an event of this client.
pub open spec fn is_event_id(id: Seq<char>) -> bool {
    exists|uuid: Seq<char>| is_random_uuid(uuid) && id == "event_"@ + uuid
}

/// A new name for an event.
pub fn new_event_id() -> (id: String)
    ensures
        is_event_id(id@),
{
    let uuid: String = random_uuid();
    let id: String = joined("event_", uuid.as_str());
    assert(is_random_uuid(uuid@) && id@ == "event_"@ + uuid@);
    id
}

/// The text, or another in its place.
pub open spec fn text_or(text: Option<Seq<char>>, other: Seq<char>) -> Seq<char> {
    match text {
        Some(text) => text,
        None => other,
    }
}

/// The language of a session: Chinese unless another is set.
pub open spec fn session_language(config: AsrConfig) -> Seq<char> {
    text_or(optional(config.language), "zh"@)
}

/// The prompt of a session: empty unless one is set.
pub open spec fn session_prompt(config: AsrConfig) -> Seq<char> {
    text_or(optional(config.prompt), Seq::empty())
}

/// The transcription model of a session: a default unless one is set that is
/// not empty.
pub open spec fn session_model(config: AsrConfig) -> Seq<char> {
    match optional(config.transcription_model) {
        Some(model) => if model.len() > 0 {
            model
        } else {
            "gpt-4o-mini-transcribe"@
        },
        None => "gpt-4o-mini-transcribe"@,
    }
}

/// The message that sets up a session.
pub open spec fn session_update(
    model: Seq<char>,
    language: Seq<char>,
    prompt: Seq<char>,
) -> Json {
    Json::Object(
        map![
            "type"@ => Json::Text("session.update"@),
            "session"@ => Json::Object(
                map![
                    "type"@ => Json::Text("transcription"@),
                    "audio"@ => Json::Object(
                        map![
                            "input"@ => Json::Object(
                                map![
                                    "format"@ => Json::Object(
                                        map![
                                            "type"@ => Json::Text("audio/pcm"@),
                                            "rate"@ => Json::Integer(TARGET_SAMPLE_RATE_HZ as int),
                                        ],
                                    ),
                                    "turn_detection"@ => Json::Null,
                                    "transcription"@ => Json::Object(
                                        map![
                                            "model"@ => Json::Text(model),
                                            "language"@ => Json::Text(language),
                                            "prompt"@ => Json::Text(prompt),
                                        ],
                                    ),
                                ],
                            ),
                        ],
                    ),
                ],
            ),
        ],
    )
}

/// The message that appends audio.
pub open spec fn audio_append(event_id: Seq<char>, audio: Seq<u8>) -> Json {
    Json::Object(
        map![
            "event_id"@ => Json::Text(event_id),
            "type"@ => Json::Text("input_audio_buffer.append"@),
            "audio"@ => Json::Text(base64_text(audio)),
        ],
    )
}

/// The message that closes the audio appended so far.
pub open spec fn audio_commit(event_id: Seq<char>) -> Json {
    Json::Object(
        map![
            "event_id"@ => Json::Text(event_id),
            "type"@ => Json::Text("input_audio_buffer.commit"@),
        ],
    )
}

impl OpenAiRealtimeAsrProvider {
    /// The message that sets up a session.
    pub fn build_session_update(config: &AsrConfig) -> (payload: serde_json::Value)
        ensures
            json_of(payload) == session_update(
                session_model(*config),
                session_language(*config),
                session_prompt(*config),
            ),
            json_of(payload) == update_of(*config),
    {
        let language: String = match &config.language {
            Some(language) => language.clone(),
            None => "zh".to_owned(),
        };
        let prompt: String = match &config.prompt {
            Some(prompt) => prompt.clone(),
            None => String::new(),
        };
        let model: String = match &config.transcription_model {
            Some(model) => if model.as_str().is_empty() {
                "gpt-4o-mini-transcribe".to_owned()
            } else {
                model.clone()
            },
            None => "gpt-4o-mini-transcribe".to_owned(),
        };

        let mut format = new_members();
        insert_member(&mut format, "type", text_value("audio/pcm"));
        insert_member(&mut format, "rate", number_value(TARGET_SAMPLE_RATE_HZ));
        let mut transcription = new_members();
        insert_member(&mut transcription, "model", text_value(model.as_str()));
        insert_member(&mut transcription, "language", text_value(language.as_str()));
        insert_member(&mut transcription, "prompt", text_value(prompt.as_str()));
        let mut input = new_members();
        insert_member(&mut input, "format", object_value(format));
        insert_member(&mut input, "turn_detection", null_value());
        insert_member(&mut input, "transcription", object_value(transcription));
        let mut audio = new_members();
        insert_member(&mut audio, "input", object_value(input));
        let mut session = new_members();
        insert_member(&mut session, "type", text_value("transcription"));
        insert_member(&mut session, "audio", object_value(audio));
        let mut payload = new_members();
        insert_member(&mut payload, "type", text_value("session.update"));
        insert_member(&mut payload, "session", object_value(session));
        object_value(payload)
    }
}

/// Makes the message that appends audio.
pub fn build_audio_append(event_id: &str, audio: &[u8]) -> (payload: serde_json::Value)
    requires
        base64_length(audio@.len()) <= isize::MAX,
    ensures
        json_of(payload) == audio_append(event_id@, audio@),
{
    let text: String = base64_encode(audio);
    let mut payload = new_members();
    insert_member(&mut payload, "event_id", text_value(event_id));
    insert_member(&mut payload, "type", text_value("input_audio_buffer.append"));
    insert_member(&mut payload, "audio", text_value(text.as_str()));
    object_value(payload)
}

/// Makes the message that closes the audio appended so far.
pub fn build_audio_commit(event_id: &str) -> (payload: serde_json::Value)
    ensures
        json_of(payload) == audio_commit(event_id@),
{
    let mut payload = new_members();
    insert_member(&mut payload, "event_id", text_value(event_id));
    insert_member(&mut payload, "type", text_value("input_audio_buffer.commit"));
    object_value(payload)
}

/// Every message of this client can be written and read back.
pub proof fn lemma_messages_exact(
    model: Seq<char>,
    language: Seq<char>,
    prompt: Seq<char>,
    event_id: Seq<char>,
    audio: Seq<u8>,
)
    ensures
        session_update(model, language, prompt).exact(127),
        audio_append(event_id, audio).exact(127),
        audio_commit(event_id).exact(127),
{
    reveal_with_fuel(Json::exact, 7);
}

/// What is read of a message from the service: the texts that matter of it,
/// each where it is there and is a text.
#[derive(Debug, PartialEq, Eq)]
pub struct ServerMessage {
    /// The member `type`.
    pub event_type: Option<String>,
    /// The member `transcript`.
    pub transcript: Option<String>,
    /// The member `message` of the member `error`.
    pub error_message: Option<String>,
    /// The member `message`.
    pub message: Option<String>,
}

/// What a `ServerMessage` says.
pub struct Received {
    pub event_type: Option<Seq<char>>,
    pub transcript: Option<Seq<char>>,
    pub error_message: Option<Seq<char>>,
    pub message: Option<Seq<char>>,
}

impl View for ServerMessage {
    type V = Received;

    open spec fn view(&self) -> Received {
        Received {
            event_type: optional(self.event_type),
            transcript: optional(self.transcript),
            error_message: optional(self.error_message),
            message: optional(self.message),
        }
    }
}

/// What is read of a JSON value.
pub open spec fn received(json: Json) -> Received {
    Received {
        event_type: json.text_member("type"@),
        transcript: json.text_member("transcript"@),
        error_message: match json.member("error"@) {
            Some(error) => error.text_member("message"@),
            None => None,
        },
        message: json.text_member("message"@),
    }
}

/// Reads a message from a JSON value.
pub fn read_message(value: &serde_json::Value) -> (message: ServerMessage)
    ensures
        message@ == received(json_of(*value)),
{
    let error_message: Option<String> = match member(value, "error") {
        Some(error) => text_member(error, "message"),
        None => None,
    };
    ServerMessage {
        event_type: text_member(value, "type"),
        transcript: text_member(value, "transcript"),
        error_message,
        message: text_member(value, "message"),
    }
}

/// What a text message says, or why it cannot be read, by what its text is as
/// JSON.
pub open spec fn text_message(parsed: Result<Json, Seq<char>>) -> Result<Received, Fault> {
    match parsed {
        Ok(json) => Ok(received(json)),
        Err(error) => Err(Fault::Protocol("parse server event: "@ + error)),
    }
}

/// What a binary message says, or why it cannot be read, by what its bytes are
/// as JSON.
pub open spec fn binary_message(parsed: Result<Json, Seq<char>>) -> Result<Received, Fault> {
    match parsed {
        Ok(json) => Ok(received(json)),
        Err(error) => Err(Fault::Protocol("parse binary server event: "@ + error)),
    }
}

/// The view of a message that may not have been readable.
pub open spec fn message_view(res: Result<ServerMessage, AsrError>) -> Result<Received, Fault> {
    match res {
        Ok(message) => Ok(message@),
        Err(error) => Err(error@),
    }
}

/// The error for a text message that is not JSON.
pub fn text_fault(error: &str) -> (fault: AsrError)
    ensures
        fault@ == Fault::Protocol("parse server event: "@ + error@),
{
    AsrError::Protocol(joined("parse server event: ", error))
}

/// The error for a binary message that is not JSON.
pub fn binary_fault(error: &str) -> (fault: AsrError)
    ensures
        fault@ == Fault::Protocol("parse binary server event: "@ + error@),
{
    AsrError::Protocol(joined("parse binary server event: ", error))
}

/// Reads a text message.
pub fn read_text_message(text: &str) -> (res: Result<ServerMessage, AsrError>)
    ensures
        message_view(res) == text_message(json_parse(text@)),
{
    match parse_text(text) {
        Ok(value) => Ok(read_message(&value)),
        Err(error) => Err(text_fault(error.as_str())),
    }
}

/// Reads a binary message. Bytes that encode a text say what the text says.
pub fn read_binary_message(bytes: &[u8]) -> (res: Result<ServerMessage, AsrError>)
    ensures
        message_view(res) == binary_message(json_parse_bytes(bytes@)),
        valid_utf8(bytes@) ==> message_view(res) == binary_message(
            json_parse(decode_utf8(bytes@)),
        ),
{
    match parse_bytes(bytes) {
        Ok(value) => Ok(read_message(&value)),
        Err(error) => Err(binary_fault(error.as_str())),
    }
}

/// The text that tells what went wrong.
pub open spec fn error_text(message: Received) -> Seq<char> {
    match message.error_message {
        Some(text) => text,
        None => text_or(message.message, "Unknown error"@),
    }
}

/// The text that tells what went wrong: that of the error, else that of the
/// message itself, else a text of its own.
pub fn extract_error_message(value: &ServerMessage) -> (text: String)
    ensures
        text@ == error_text(value@),
{
    match &value.error_message {
        Some(text) => text.clone(),
        None => match &value.message {
            Some(text) => text.clone(),
            None => "Unknown error".to_owned(),
        },
    }
}

} // verus!
