//! Settings, events and errors of a recognition session.

use vstd::prelude::*;

verus! {

/// Which service speaks the realtime protocol.
#[derive(Clone, Copy, Debug, PartialEq, Eq, Structural)]
pub enum OpenAiRealtimeBackend {
    OpenAi,
    AzureOpenAi,
}

/// The settings of a session.
#[derive(Debug)]
pub struct AsrConfig {
    pub url: String,
    pub access_key: String,
    pub connect_timeout_ms: u64,
    pub model: Option<String>,
    pub language: Option<String>,
    pub prompt: Option<String>,
    pub transcription_model: Option<String>,
    pub openai_realtime_backend: Option<OpenAiRealtimeBackend>,
}

/// What a session tells its user.
#[derive(Debug, PartialEq, Eq)]
pub enum AsrEvent {
    Connected,
    Interim(String),
    Definite(String),
    Final(String),
    Error(String),
    Closed,
}

/// What an `AsrEvent` says.
pub enum Event {
    Connected,
    Interim(Seq<char>),
    Definite(Seq<char>),
    Final(Seq<char>),
    Error(Seq<char>),
    Closed,
}

impl View for AsrEvent {
    type V = Event;

    open spec fn view(&self) -> Event {
        match self {
            AsrEvent::Connected => Event::Connected,
            AsrEvent::Interim(text) => Event::Interim(text@),
            AsrEvent::Definite(text) => Event::Definite(text@),
            AsrEvent::Final(text) => Event::Final(text@),
            AsrEvent::Error(text) => Event::Error(text@),
            AsrEvent::Closed => Event::Closed,
        }
    }
}

/// The views of a list of events.
pub open spec fn events(list: Seq<AsrEvent>) -> Seq<Event> {
    list.map_values(|event: AsrEvent| event@)
}

/// An event says what it holds, and a list of events what each of them says.
pub proof fn law_events_say_what_they_hold(event: AsrEvent, list: Seq<AsrEvent>)
    ensures
        match event {
            AsrEvent::Connected => event@ is Connected,
            AsrEvent::Interim(text) => event@ == Event::Interim(text@),
            AsrEvent::Definite(text) => event@ == Event::Definite(text@),
            AsrEvent::Final(text) => event@ == Event::Final(text@),
            AsrEvent::Error(text) => event@ == Event::Error(text@),
            AsrEvent::Closed => event@ is Closed,
        },
        events(list).len() == list.len(),
        forall|i: int| 0 <= i < list.len() ==> #[trigger] events(list)[i] == list[i]@,
{
}

/// Why a session could not go on.
#[derive(Debug, PartialEq, Eq)]
pub enum AsrError {
    Connection(String),
    Protocol(String),
}

/// What an `AsrError` says.
pub enum Fault {
    Connection(Seq<char>),
    Protocol(Seq<char>),
}

impl View for AsrError {
    type V = Fault;

    open spec fn view(&self) -> Fault {
        match self {
            AsrError::Connection(text) => Fault::Connection(text@),
            AsrError::Protocol(text) => Fault::Protocol(text@),
        }
    }
}

/// What comes in from the socket when it is read.
#[derive(Debug, PartialEq, Eq)]
pub enum Incoming {
    /// A text message.
    Text(String),
    /// A binary message.
    Binary(Vec<u8>),
    /// A ping or a pong.
    Heartbeat,
    /// A close message, with a description of its frame.
    Close(String),
    /// Any other message, with a description of it.
    Other(String),
    /// An error, with its text.
    Failed(String),
    /// The end of the stream.
    Ended,
}

/// What an `Incoming` says.
pub enum Arrival {
    Text(Seq<char>),
    Binary(Seq<u8>),
    Heartbeat,
    Close(Seq<char>),
    Other(Seq<char>),
    Failed(Seq<char>),
    Ended,
}

impl View for Incoming {
    type V = Arrival;

    open spec fn view(&self) -> Arrival {
        match self {
            Incoming::Text(text) => Arrival::Text(text@),
            Incoming::Binary(bytes) => Arrival::Binary(bytes@),
            Incoming::Heartbeat => Arrival::Heartbeat,
            Incoming::Close(frame) => Arrival::Close(frame@),
            Incoming::Other(message) => Arrival::Other(message@),
            Incoming::Failed(error) => Arrival::Failed(error@),
            Incoming::Ended => Arrival::Ended,
        }
    }
}

/// An error says what it holds.
pub proof fn law_errors_say_what_they_hold(error: AsrError)
    ensures
        match error {
            AsrError::Connection(text) => error@ == Fault::Connection(text@),
            AsrError::Protocol(text) => error@ == Fault::Protocol(text@),
        },
{
}

/// What comes in says what it holds.
pub proof fn law_arrivals_say_what_they_hold(incoming: Incoming)
    ensures
        match incoming {
            Incoming::Text(text) => incoming@ == Arrival::Text(text@),
            Incoming::Binary(bytes) => incoming@ == Arrival::Binary(bytes@),
            Incoming::Heartbeat => incoming@ is Heartbeat,
            Incoming::Close(frame) => incoming@ == Arrival::Close(frame@),
            Incoming::Other(message) => incoming@ == Arrival::Other(message@),
            Incoming::Failed(error) => incoming@ == Arrival::Failed(error@),
            Incoming::Ended => incoming@ is Ended,
        },
{
}

} // verus!
