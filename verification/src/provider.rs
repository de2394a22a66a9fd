//! A recognition session: what it remembers, and what it does with the audio
//! that goes out and the messages that come in.
//!
//! The session itself neither reads nor writes the socket. Where something is
//! to be read or sent, its functions say so, and take what came of it.

use std::collections::VecDeque;

use vstd::prelude::*;

use crate::json::{json_of, json_parse, json_parse_bytes, write_text, Json};
use crate::request::{is_request_for, request_refusal};
use crate::resample::{carry_after, flushed, upsampled, PairwiseUpsampler};
use crate::session_laws::{called, Call};
use crate::text::{joined, optional, same_text, trimmed};
use crate::types::{events, Arrival, AsrConfig, AsrError, AsrEvent, Event, Fault, Incoming};
use crate::wire::{
    audio_append, audio_commit, base64_length, binary_message, build_audio_append,
    build_audio_commit, error_text, extract_error_message, is_event_id, lemma_messages_exact,
    message_view, new_event_id, read_binary_message, read_text_message, session_language,
    session_model, session_prompt, session_update, text_message, text_or, Received, ServerMessage,
};

verus! {

/// What a session remembers.
#[verifier::ext_equal]
pub struct Session {
    /// Whether there is a socket.
    pub connected: bool,
    /// The events that have not been handed out yet, in order.
    pub pending: Seq<Event>,
    /// The sample that waits for a partner.
    pub carry: Option<i16>,
    /// Whether the audio has come to its end.
    pub input_finished: bool,
    /// Whether audio was sent that has not been committed.
    pub pending_audio: bool,
    /// Whether the final text has been given.
    pub final_emitted: bool,
    /// The last transcript that was completed.
    pub completed_text: Option<Seq<char>>,
}

/// A session before anything has happened.
pub open spec fn fresh() -> Session {
    Session {
        connected: false,
        pending: Seq::empty(),
        carry: None,
        input_finished: false,
        pending_audio: false,
        final_emitted: false,
        completed_text: None,
    }
}

/// A session with more events to hand out.
pub open spec fn queued(session: Session, more: Seq<Event>) -> Session {
    Session { pending: session.pending + more, ..session }
}

/// A session that gives the last completed transcript as the final text, if
/// there is one and none was given before.
pub open spec fn with_final(session: Session) -> Session {
    match session.completed_text {
        Some(text) => if session.final_emitted {
            session
        } else {
            Session {
                pending: session.pending.push(Event::Final(text)),
                final_emitted: true,
                ..session
            }
        },
        None => session,
    }
}

/// The type of a message.
pub open spec fn message_type(message: Received) -> Seq<char> {
    text_or(message.event_type, "unknown"@)
}

/// The transcript of a message, without white space around it.
pub open spec fn transcript(message: Received) -> Seq<char> {
    trimmed(text_or(message.transcript, Seq::empty()))
}

/// A session after a transcript was completed.
pub open spec fn after_transcript(session: Session, text: Seq<char>) -> Session {
    Session {
        completed_text: Some(text),
        final_emitted: session.final_emitted || session.input_finished,
        ..session
    }
}

/// The events that a completed transcript gives.
pub open spec fn transcript_events(session: Session, text: Seq<char>) -> Seq<Event> {
    if session.input_finished && !session.final_emitted {
        seq![Event::Definite(text), Event::Final(text)]
    } else {
        seq![Event::Definite(text)]
    }
}

/// Whether the message says that a transcript was completed.
pub open spec fn is_transcript(message: Received) -> bool {
    &&& message_type(message) == "conversation.item.input_audio_transcription.completed"@
    &&& transcript(message).len() > 0
}

/// Whether the message says that something went wrong.
pub open spec fn is_failure(message: Received) -> bool {
    ||| message_type(message) == "conversation.item.input_audio_transcription.failed"@
    ||| message_type(message) == "error"@
}

/// The types of messages that a session tells apart are different texts.
pub proof fn lemma_types_apart()
    ensures
        "session.updated"@.len() == 15,
        "input_audio_buffer.committed"@.len() == 28,
        "conversation.item.input_audio_transcription.completed"@.len() == 53,
        "conversation.item.input_audio_transcription.failed"@.len() == 50,
        "error"@.len() == 5,
        "session.created"@.len() == 15,
        "session.created"@ != "session.updated"@,
{
    reveal_strlit("session.created");
    reveal_strlit("session.updated");
    reveal_strlit("input_audio_buffer.committed");
    reveal_strlit("conversation.item.input_audio_transcription.completed");
    reveal_strlit("conversation.item.input_audio_transcription.failed");
    reveal_strlit("error");
    assert("session.created"@[8] != "session.updated"@[8]);
}

/// A session after a message from the service.
pub open spec fn after_message(session: Session, message: Received) -> Session {
    if message_type(message) == "input_audio_buffer.committed"@ {
        Session { pending_audio: false, ..session }
    } else if is_transcript(message) {
        after_transcript(session, transcript(message))
    } else {
        session
    }
}

/// The events that a message from the service gives.
pub open spec fn message_events(session: Session, message: Received) -> Seq<Event> {
    if message_type(message) == "session.updated"@ {
        seq![Event::Connected]
    } else if is_transcript(message) {
        transcript_events(session, transcript(message))
    } else if is_failure(message) {
        seq![Event::Error(error_text(message))]
    } else {
        Seq::empty()
    }
}

/// A session that has taken in a message and queued its events.
pub open spec fn taken_in(session: Session, message: Received) -> Session {
    queued(after_message(session, message), message_events(session, message))
}

/// What asking for the next event comes to.
#[derive(Debug)]
pub enum NextStep {
    /// Here it is.
    Deliver(AsrEvent),
    /// There is none to be had.
    Fail(AsrError),
    /// The socket has to be read first.
    Read,
}

/// What a `NextStep` says.
pub enum Next {
    Deliver(Event),
    Fail(Fault),
    Read,
}

impl View for NextStep {
    type V = Next;

    open spec fn view(&self) -> Next {
        match self {
            NextStep::Deliver(event) => Next::Deliver(event@),
            NextStep::Fail(error) => Next::Fail(error@),
            NextStep::Read => Next::Read,
        }
    }
}

/// Asking for the next event: the first that waits, else what the socket
/// brings.
pub open spec fn next_of(session: Session) -> (Session, Next) {
    if session.pending.len() > 0 {
        (
            Session { pending: session.pending.drop_first(), ..session },
            Next::Deliver(session.pending[0]),
        )
    } else if session.connected {
        (session, Next::Read)
    } else {
        (session, Next::Fail(Fault::Connection("not connected"@)))
    }
}

/// Going on after a message was read, or could not be.
pub open spec fn next_after_message(
    session: Session,
    message: Result<Received, Fault>,
) -> (Session, Next) {
    match message {
        Ok(message) => next_of(taken_in(session, message)),
        Err(fault) => (session, Next::Fail(fault)),
    }
}

/// Going on after the socket was closed: what waits is still handed out, with
/// the final text at the end of it.
pub open spec fn next_after_close(session: Session) -> (Session, Next) {
    let session = with_final(session);
    if session.pending.len() > 0 {
        next_of(session)
    } else {
        (session, Next::Deliver(Event::Closed))
    }
}

/// Going on after the socket was read.
pub open spec fn next_after(session: Session, arrival: Arrival) -> (Session, Next) {
    match arrival {
        Arrival::Text(text) => next_after_message(session, text_message(json_parse(text))),
        Arrival::Binary(bytes) => next_after_message(
            session,
            binary_message(json_parse_bytes(bytes)),
        ),
        Arrival::Close(_) | Arrival::Ended => next_after_close(session),
        Arrival::Heartbeat | Arrival::Other(_) => next_of(session),
        Arrival::Failed(error) => (session, Next::Fail(Fault::Protocol(error))),
    }
}

/// What became of an attempt to reach the service.
#[derive(Debug, PartialEq, Eq)]
pub enum DialOutcome {
    /// There is a socket.
    Established,
    /// There is none, with the text of the error.
    Failed(String),
    /// There was none within the time allowed.
    TimedOut,
}

/// What a `DialOutcome` says.
pub enum Dialed {
    Established,
    Failed(Seq<char>),
    TimedOut,
}

impl View for DialOutcome {
    type V = Dialed;

    open spec fn view(&self) -> Dialed {
        match self {
            DialOutcome::Established => Dialed::Established,
            DialOutcome::Failed(error) => Dialed::Failed(error@),
            DialOutcome::TimedOut => Dialed::TimedOut,
        }
    }
}

/// What is to be done next to connect.
#[derive(Debug)]
pub enum ConnectStep {
    /// Read the socket, for a limited time, and hand the outcome to
    /// `session_created`.
    ReadCreated,
    /// Send this text, and hand the outcome to `update_sent`.
    SendUpdate(String),
    /// Read the socket, and hand what comes to `session_updated`.
    ReadUpdated,
    /// Nothing: this is how it ended.
    Finished(Result<(), AsrError>),
}

/// What a `ConnectStep` says. A text to be sent is told by the value that it
/// is.
pub enum Connecting {
    ReadCreated,
    SendUpdate(Result<Json, Seq<char>>),
    ReadUpdated,
    Connected,
    Failed(Fault),
}

impl View for ConnectStep {
    type V = Connecting;

    open spec fn view(&self) -> Connecting {
        match self {
            ConnectStep::ReadCreated => Connecting::ReadCreated,
            ConnectStep::SendUpdate(text) => Connecting::SendUpdate(json_parse(text@)),
            ConnectStep::ReadUpdated => Connecting::ReadUpdated,
            ConnectStep::Finished(Ok(_)) => Connecting::Connected,
            ConnectStep::Finished(Err(error)) => Connecting::Failed(error@),
        }
    }
}

/// Connecting, once it is known what became of the attempt.
pub open spec fn connect_dialed(session: Session, outcome: Dialed) -> (Session, Connecting) {
    match outcome {
        Dialed::Established => (
            Session { connected: true, ..session },
            Connecting::ReadCreated,
        ),
        Dialed::Failed(error) => (session, Connecting::Failed(Fault::Connection(error))),
        Dialed::TimedOut => (
            session,
            Connecting::Failed(Fault::Connection("connection timed out"@)),
        ),
    }
}

/// What reading the first message of a session comes to.
#[derive(Debug)]
pub enum FirstRead {
    /// This message.
    Message(ServerMessage),
    /// Nothing that counts: read again.
    Again,
    /// An error.
    Fail(AsrError),
}

/// What a `FirstRead` says.
pub enum First {
    Message(Received),
    Again,
    Fail(Fault),
}

impl View for FirstRead {
    type V = First;

    open spec fn view(&self) -> First {
        match self {
            FirstRead::Message(message) => First::Message(message@),
            FirstRead::Again => First::Again,
            FirstRead::Fail(error) => First::Fail(error@),
        }
    }
}

/// The first message, if it could be read.
pub open spec fn first_message(message: Result<Received, Fault>) -> First {
    match message {
        Ok(message) => First::Message(message),
        Err(fault) => First::Fail(fault),
    }
}

/// Reading the first message: nothing came within the time allowed, or this.
pub open spec fn first_of(arrival: Option<Arrival>) -> First {
    match arrival {
        None => First::Fail(Fault::Connection("timeout waiting for server event"@)),
        Some(Arrival::Text(text)) => first_message(text_message(json_parse(text))),
        Some(Arrival::Binary(bytes)) => first_message(binary_message(json_parse_bytes(bytes))),
        Some(Arrival::Heartbeat) => First::Again,
        Some(Arrival::Close(frame)) => First::Fail(
            Fault::Connection("connection closed unexpectedly: "@ + frame),
        ),
        Some(Arrival::Other(message)) => First::Fail(
            Fault::Protocol("unexpected websocket message: "@ + message),
        ),
        Some(Arrival::Failed(error)) => First::Fail(
            Fault::Connection("WebSocket error: "@ + error),
        ),
        Some(Arrival::Ended) => First::Fail(Fault::Connection("connection closed"@)),
    }
}

/// The view of what may have been read.
pub open spec fn arrival_of(arrival: Option<Incoming>) -> Option<Arrival> {
    match arrival {
        Some(incoming) => Some(incoming@),
        None => None,
    }
}

/// The message that sets up a session with these settings.
pub open spec fn update_of(config: AsrConfig) -> Json {
    session_update(session_model(config), session_language(config), session_prompt(config))
}

/// Connecting, once the first message has come.
pub open spec fn connect_greeted(
    session: Session,
    config: AsrConfig,
    message: Received,
) -> (Session, Connecting) {
    if message_type(message) != "session.created"@ {
        (
            session,
            Connecting::Failed(
                Fault::Connection(
                    "expected session.created event, got "@ + message_type(message),
                ),
            ),
        )
    } else if session.connected {
        (taken_in(session, message), Connecting::SendUpdate(Ok(update_of(config))))
    } else {
        (
            taken_in(session, message),
            Connecting::Failed(Fault::Connection("not connected"@)),
        )
    }
}

/// Connecting, once the socket was read for the first message.
pub open spec fn connect_created(
    session: Session,
    config: AsrConfig,
    first: First,
) -> (Session, Connecting) {
    match first {
        First::Message(message) => connect_greeted(session, config, message),
        First::Again => (session, Connecting::ReadCreated),
        First::Fail(fault) => (session, Connecting::Failed(fault)),
    }
}

/// Connecting, with this step towards the next event taken: transcripts are
/// passed over until something decides.
pub open spec fn connect_next(session: Session, next: Next) -> (Session, Connecting)
    decreases
            session.pending.len(),
            if next is Deliver {
                1int
            } else {
                0int
            },
{
    match next {
        Next::Deliver(Event::Connected) => (session, Connecting::Connected),
        Next::Deliver(Event::Error(text)) => (
            session,
            Connecting::Failed(Fault::Protocol(text)),
        ),
        Next::Deliver(Event::Closed) => (
            session,
            Connecting::Failed(
                Fault::Connection("connection closed before session.updated"@),
            ),
        ),
        Next::Deliver(_) => {
            let (session, next) = next_of(session);
            connect_next(session, next)
        },
        Next::Fail(fault) => (session, Connecting::Failed(fault)),
        Next::Read => (session, Connecting::ReadUpdated),
    }
}

/// Connecting, once the settings were sent, or could not be.
pub open spec fn connect_sent(
    session: Session,
    failure: Option<Seq<char>>,
) -> (Session, Connecting) {
    match failure {
        Some(error) => (
            session,
            Connecting::Failed(Fault::Protocol("send client event: "@ + error)),
        ),
        None => connect_next(next_of(session).0, next_of(session).1),
    }
}

/// Connecting, once the socket was read for the answer to the settings.
pub open spec fn connect_updated(session: Session, arrival: Arrival) -> (Session, Connecting) {
    connect_next(next_after(session, arrival).0, next_after(session, arrival).1)
}

/// Taking in a frame of audio: what becomes of the session, and the audio that
/// is to be sent, if any.
pub open spec fn audio_taken(session: Session, frame: Seq<u8>) -> (Session, Option<Seq<u8>>) {
    let audio = upsampled(session.carry, frame);
    let carry = carry_after(session.carry, frame);
    if frame.len() == 0 {
        (session, None)
    } else if audio.len() == 0 {
        (Session { carry, ..session }, None)
    } else {
        (Session { carry, pending_audio: true, ..session }, Some(audio))
    }
}

/// A message about audio.
#[derive(Debug, PartialEq, Eq)]
pub enum AudioMessage {
    /// More audio.
    Append(Vec<u8>),
    /// The audio so far is complete.
    Commit,
}

/// What an `AudioMessage` says.
pub enum Audio {
    Append(Seq<u8>),
    Commit,
}

impl View for AudioMessage {
    type V = Audio;

    open spec fn view(&self) -> Audio {
        match self {
            AudioMessage::Append(audio) => Audio::Append(audio@),
            AudioMessage::Commit => Audio::Commit,
        }
    }
}

/// The views of a list of messages about audio.
pub open spec fn audio_views(list: Seq<AudioMessage>) -> Seq<Audio> {
    list.map_values(|message: AudioMessage| message@)
}

/// The end of the audio: what becomes of the session, and what is to be sent.
/// Audio that was not committed is committed; where there is none, the final
/// text is due.
pub open spec fn input_closed(session: Session) -> (Session, Seq<Audio>) {
    let rest = flushed(session.carry);
    let ended = Session { input_finished: true, carry: None, ..session };
    if session.input_finished {
        (session, Seq::empty())
    } else if rest.len() > 0 {
        (
            Session { pending_audio: true, ..ended },
            seq![Audio::Append(rest), Audio::Commit],
        )
    } else if session.pending_audio {
        (ended, seq![Audio::Commit])
    } else {
        (with_final(ended), Seq::empty())
    }
}

/// The value that a message about audio is, under the name of an event.
pub open spec fn audio_json(event_id: Seq<char>, message: Audio) -> Json {
    match message {
        Audio::Append(audio) => audio_append(event_id, audio),
        Audio::Commit => audio_commit(event_id),
    }
}

/// Whether `text` is a message about audio under a name of this client.
pub open spec fn tells(text: Seq<char>, message: Audio) -> bool {
    exists|event_id: Seq<char>|
        is_event_id(event_id) && json_parse(text) == Ok::<Json, Seq<char>>(
            #[trigger] audio_json(event_id, message),
        )
}

/// A recognition session with a realtime transcription service.
pub struct OpenAiRealtimeAsrProvider {
    connected: bool,
    pending_events: VecDeque<AsrEvent>,
    resampler: PairwiseUpsampler,
    input_finished: bool,
    pending_audio_since_commit: bool,
    final_emitted: bool,
    completed_text: Option<String>,
}

impl View for OpenAiRealtimeAsrProvider {
    type V = Session;

    closed spec fn view(&self) -> Session {
        Session {
            connected: self.connected,
            pending: events(self.pending_events@),
            carry: self.resampler.carry_sample,
            input_finished: self.input_finished,
            pending_audio: self.pending_audio_since_commit,
            final_emitted: self.final_emitted,
            completed_text: optional(self.completed_text),
        }
    }
}

impl Default for OpenAiRealtimeAsrProvider {
    fn default() -> (provider: Self)
        ensures
            provider@ == fresh(),
    {
        Self::new()
    }
}

impl OpenAiRealtimeAsrProvider {
    /// A session before anything has happened.
    pub fn new() -> (provider: Self)
        ensures
            provider@ == fresh(),
    {
        let provider: Self = OpenAiRealtimeAsrProvider {
            connected: false,
            pending_events: VecDeque::new(),
            resampler: PairwiseUpsampler::default(),
            input_finished: false,
            pending_audio_since_commit: false,
            final_emitted: false,
            completed_text: None,
        };
        assert(provider@ =~= fresh());
        provider
    }

    /// Whether there is a socket.
    pub fn is_connected(&self) -> (connected: bool)
        ensures
            connected == self@.connected,
    {
        self.connected
    }

    /// Forgets everything.
    pub fn reset_runtime_state(&mut self)
        ensures
            final(self)@ == fresh(),
    {
        self.pending_events.clear();
        self.resampler = PairwiseUpsampler::default();
        self.input_finished = false;
        self.pending_audio_since_commit = false;
        self.final_emitted = false;
        self.completed_text = None;
        self.connected = false;
        assert(self@ =~= fresh());
    }

    /// Takes in a message from the service and returns the events it gives.
    pub fn parse_server_event(&mut self, value: ServerMessage) -> (list: Vec<AsrEvent>)
        ensures
            final(self)@ == after_message(old(self)@, value@),
            events(list@) == message_events(old(self)@, value@),
    {
        let ghost before = self@;
        let mut list: Vec<AsrEvent> = Vec::new();
        let event_type: &str = match &value.event_type {
            Some(event_type) => event_type.as_str(),
            None => "unknown",
        };
        proof {
            lemma_types_apart();
        }
        if same_text(event_type, "session.updated") {
            list.push(AsrEvent::Connected);
            assert(events(list@) =~= seq![Event::Connected]);
        } else if same_text(event_type, "input_audio_buffer.committed") {
            self.pending_audio_since_commit = false;
        } else if same_text(
            event_type,
            "conversation.item.input_audio_transcription.completed",
        ) {
            let raw: &str = match &value.transcript {
                Some(transcript) => transcript.as_str(),
                None => "",
            };
            proof {
                reveal_strlit("");
                assert(raw@ =~= text_or(value@.transcript, Seq::empty()));
            }
            let transcript: String = raw.trim().to_owned();
            if !transcript.as_str().is_empty() {
                self.completed_text = Some(transcript.clone());
                list.push(AsrEvent::Definite(transcript.clone()));
                if self.input_finished && !self.final_emitted {
                    self.final_emitted = true;
                    list.push(AsrEvent::Final(transcript));
                }
            }
        } else if same_text(event_type, "conversation.item.input_audio_transcription.failed")
            || same_text(event_type, "error") {
            list.push(AsrEvent::Error(extract_error_message(&value)));
        }
        assert(events(list@) =~= message_events(before, value@));
        assert(self@ =~= after_message(before, value@));
        list
    }

    /// Queues the last completed transcript as the final text, if there is one
    /// and none was given before.
    pub fn maybe_queue_final(&mut self)
        ensures
            final(self)@ == with_final(old(self)@),
    {
        let ghost before = self@;
        if self.final_emitted {
            return;
        }
        if let Some(text) = &self.completed_text {
            self.pending_events.push_back(AsrEvent::Final(text.clone()));
            self.final_emitted = true;
        }
        assert(self@ =~= with_final(before));
    }

    /// Queues events behind those that wait.
    fn queue(&mut self, list: Vec<AsrEvent>)
        ensures
            final(self)@ == queued(old(self)@, events(list@)),
    {
        let ghost before = self@;
        let mut more: VecDeque<AsrEvent> = VecDeque::new();
        let ghost all = list@;
        let mut list: Vec<AsrEvent> = list;
        while list.len() > 0
            invariant
                list@ + more@ == all,
            decreases list@.len(),
        {
            let ghost shorter = list@.drop_last();
            let ghost longer = seq![list@.last()] + more@;
            if let Some(event) = list.pop() {
                more.push_front(event);
            }
            assert(more@ =~= longer);
            assert(shorter + longer =~= all);
        }
        assert(more@ =~= all);
        self.pending_events.append(&mut more);
        assert(self@ =~= queued(before, events(all)));
    }

    /// Takes in a message and queues the events it gives.
    fn take_in(&mut self, message: ServerMessage)
        ensures
            final(self)@ == taken_in(old(self)@, message@),
    {
        let list: Vec<AsrEvent> = self.parse_server_event(message);
        self.queue(list);
    }

    /// The next event, or what has to be done to get it.
    pub fn next_event(&mut self) -> (step: NextStep)
        ensures
            (final(self)@, step@) == next_of(old(self)@),
    {
        let ghost before = self@;
        match self.pending_events.pop_front() {
            Some(event) => {
                assert(self@ =~= next_of(before).0);
                NextStep::Deliver(event)
            },
            None => if self.connected {
                assert(self@ =~= before);
                NextStep::Read
            } else {
                assert(self@ =~= before);
                NextStep::Fail(AsrError::Connection("not connected".to_owned()))
            },
        }
    }

    /// Goes on towards the next event once a message was read, or could not be.
    pub fn receive_message(&mut self, message: Result<ServerMessage, AsrError>) -> (step: NextStep)
        ensures
            (final(self)@, step@) == next_after_message(old(self)@, message_view(message)),
    {
        match message {
            Ok(message) => {
                self.take_in(message);
                self.next_event()
            },
            Err(error) => NextStep::Fail(error),
        }
    }

    /// Goes on towards the next event once the socket was read.
    pub fn receive(&mut self, incoming: Incoming) -> (step: NextStep)
        ensures
            (final(self)@, step@) == next_after(old(self)@, incoming@),
    {
        match incoming {
            Incoming::Text(text) => {
                let message: Result<ServerMessage, AsrError> = read_text_message(text.as_str());
                self.receive_message(message)
            },
            Incoming::Binary(bytes) => {
                let message: Result<ServerMessage, AsrError> = read_binary_message(
                    bytes.as_slice(),
                );
                self.receive_message(message)
            },
            Incoming::Close(_) | Incoming::Ended => {
                self.maybe_queue_final();
                let ghost before = self@;
                match self.pending_events.pop_front() {
                    Some(event) => {
                        assert(self@ =~= next_of(before).0);
                        NextStep::Deliver(event)
                    },
                    None => {
                        assert(self@ =~= before);
                        NextStep::Deliver(AsrEvent::Closed)
                    },
                }
            },
            Incoming::Heartbeat | Incoming::Other(_) => self.next_event(),
            Incoming::Failed(error) => NextStep::Fail(AsrError::Protocol(error)),
        }
    }

    /// The text of a message that is to be sent, if there is a socket to send it
    /// on.
    fn send_json(&self, payload: &serde_json::Value) -> (res: Result<String, AsrError>)
        requires
            json_of(*payload).exact(127),
        ensures
            match res {
                Ok(text) => {
                    &&& self@.connected
                    &&& json_parse(text@) == Ok::<Json, Seq<char>>(json_of(*payload))
                },
                Err(error) => {
                    &&& !self@.connected
                    &&& error@ == Fault::Connection("not connected"@)
                },
            },
    {
        let text: String = match write_text(payload) {
            Ok(text) => text,
            Err(error) => {
                return Err(
                    AsrError::Protocol(joined("serialize client event: ", error.as_str())),
                );
            },
        };
        if self.connected {
            Ok(text)
        } else {
            Err(AsrError::Connection("not connected".to_owned()))
        }
    }

    /// The error for a text that could not be sent.
    pub fn send_failed(error: &str) -> (fault: AsrError)
        ensures
            fault@ == Fault::Protocol("send client event: "@ + error@),
    {
        AsrError::Protocol(joined("send client event: ", error))
    }

    /// Begins to connect: makes the request to reach the service with. A session
    /// that was there before is forgotten, unless there is no key.
    pub fn connect(&mut self, config: &AsrConfig) -> (res: Result<
        tokio_tungstenite::tungstenite::http::Request<()>,
        AsrError,
    >)
        ensures
            final(self)@ == if config.access_key@.len() == 0 {
                old(self)@
            } else {
                fresh()
            },
            match res {
                Ok(request) => {
                    &&& request_refusal(*config) is None
                    &&& is_request_for(request, *config)
                },
                Err(error) => request_refusal(*config) == Some(error@),
            },
    {
        if !config.access_key.as_str().is_empty() {
            self.reset_runtime_state();
        }
        Self::build_request(config)
    }

    /// Goes on connecting once it is known what became of the attempt.
    pub fn dialed(&mut self, outcome: DialOutcome) -> (step: ConnectStep)
        ensures
            (final(self)@, step@) == connect_dialed(old(self)@, outcome@),
    {
        match outcome {
            DialOutcome::Established => {
                self.connected = true;
                ConnectStep::ReadCreated
            },
            DialOutcome::Failed(error) => ConnectStep::Finished(Err(AsrError::Connection(error))),
            DialOutcome::TimedOut => ConnectStep::Finished(
                Err(AsrError::Connection("connection timed out".to_owned())),
            ),
        }
    }

    /// Reads the first message of a session. Without an arrival, the time was
    /// up.
    pub fn read_text_event(arrival: Option<Incoming>) -> (read: FirstRead)
        ensures
            read@ == first_of(arrival_of(arrival)),
    {
        match arrival {
            None => FirstRead::Fail(
                AsrError::Connection("timeout waiting for server event".to_owned()),
            ),
            Some(Incoming::Text(text)) => match read_text_message(text.as_str()) {
                Ok(message) => FirstRead::Message(message),
                Err(error) => FirstRead::Fail(error),
            },
            Some(Incoming::Binary(bytes)) => match read_binary_message(bytes.as_slice()) {
                Ok(message) => FirstRead::Message(message),
                Err(error) => FirstRead::Fail(error),
            },
            Some(Incoming::Heartbeat) => FirstRead::Again,
            Some(Incoming::Close(frame)) => FirstRead::Fail(
                AsrError::Connection(joined("connection closed unexpectedly: ", frame.as_str())),
            ),
            Some(Incoming::Other(message)) => FirstRead::Fail(
                AsrError::Protocol(joined("unexpected websocket message: ", message.as_str())),
            ),
            Some(Incoming::Failed(error)) => FirstRead::Fail(
                AsrError::Connection(joined("WebSocket error: ", error.as_str())),
            ),
            Some(Incoming::Ended) => FirstRead::Fail(
                AsrError::Connection("connection closed".to_owned()),
            ),
        }
    }

    /// Goes on connecting once the first message has come: it has to greet the
    /// client, and is answered with the settings.
    pub fn greeted(&mut self, config: &AsrConfig, message: ServerMessage) -> (step: ConnectStep)
        ensures
            (final(self)@, step@) == connect_greeted(old(self)@, *config, message@),
    {
        let event_type: &str = match &message.event_type {
            Some(event_type) => event_type.as_str(),
            None => "unknown",
        };
        if !same_text(event_type, "session.created") {
            return ConnectStep::Finished(
                Err(
                    AsrError::Connection(
                        joined("expected session.created event, got ", event_type),
                    ),
                ),
            );
        }
        self.take_in(message);
        let payload: serde_json::Value = Self::build_session_update(config);
        proof {
            lemma_messages_exact(
                session_model(*config),
                session_language(*config),
                session_prompt(*config),
                Seq::empty(),
                Seq::empty(),
            );
        }
        match self.send_json(&payload) {
            Ok(text) => ConnectStep::SendUpdate(text),
            Err(error) => ConnectStep::Finished(Err(error)),
        }
    }

    /// Goes on connecting once the socket was read for the first message.
    /// Without an arrival, the time was up.
    pub fn session_created(&mut self, config: &AsrConfig, arrival: Option<Incoming>) -> (step:
        ConnectStep)
        ensures
            (final(self)@, step@) == connect_created(
                old(self)@,
                *config,
                first_of(arrival_of(arrival)),
            ),
    {
        match Self::read_text_event(arrival) {
            FirstRead::Message(message) => self.greeted(config, message),
            FirstRead::Again => ConnectStep::ReadCreated,
            FirstRead::Fail(error) => ConnectStep::Finished(Err(error)),
        }
    }

    /// Goes on connecting with this step towards the next event taken.
    #[verifier::loop_isolation(false)]
    fn decide(&mut self, step: NextStep) -> (res: ConnectStep)
        ensures
            (final(self)@, res@) == connect_next(old(self)@, step@),
    {
        let ghost outcome = connect_next(self@, step@);
        let mut step: NextStep = step;
        loop
            invariant
                connect_next(self@, step@) == outcome,
            decreases
                    self@.pending.len(),
                    if step@ is Deliver {
                        1int
                    } else {
                        0int
                    },
        {
            match step {
                NextStep::Deliver(AsrEvent::Connected) => {
                    return ConnectStep::Finished(Ok(()));
                },
                NextStep::Deliver(AsrEvent::Error(text)) => {
                    return ConnectStep::Finished(Err(AsrError::Protocol(text)));
                },
                NextStep::Deliver(AsrEvent::Closed) => {
                    return ConnectStep::Finished(
                        Err(
                            AsrError::Connection(
                                "connection closed before session.updated".to_owned(),
                            ),
                        ),
                    );
                },
                NextStep::Deliver(_) => {
                    step = self.next_event();
                },
                NextStep::Fail(error) => {
                    return ConnectStep::Finished(Err(error));
                },
                NextStep::Read => {
                    return ConnectStep::ReadUpdated;
                },
            }
        }
    }

    /// Goes on connecting once the settings were sent, or could not be for the
    /// reason given.
    pub fn update_sent(&mut self, failure: Option<String>) -> (step: ConnectStep)
        ensures
            (final(self)@, step@) == connect_sent(old(self)@, optional(failure)),
    {
        match failure {
            Some(error) => ConnectStep::Finished(Err(Self::send_failed(error.as_str()))),
            None => {
                let step: NextStep = self.next_event();
                self.decide(step)
            },
        }
    }

    /// Goes on connecting once the socket was read for the answer to the
    /// settings.
    pub fn session_updated(&mut self, incoming: Incoming) -> (step: ConnectStep)
        ensures
            (final(self)@, step@) == connect_updated(old(self)@, incoming@),
    {
        let step: NextStep = self.receive(incoming);
        self.decide(step)
    }

    /// Takes in a frame of audio and returns the audio that is to be sent.
    pub fn take_audio(&mut self, frame: &[u8]) -> (audio: Option<Vec<u8>>)
        ensures
            final(self)@ == audio_taken(old(self)@, frame@).0,
            match audio {
                Some(audio) => audio_taken(old(self)@, frame@).1 == Some(audio@),
                None => audio_taken(old(self)@, frame@).1 is None,
            },
    {
        let ghost before = self@;
        if frame.len() == 0 {
            return None;
        }
        let audio: Vec<u8> = self.resampler.upsample_chunk(frame);
        if audio.len() == 0 {
            assert(self@ =~= audio_taken(before, frame@).0);
            return None;
        }
        self.pending_audio_since_commit = true;
        assert(self@ =~= audio_taken(before, frame@).0);
        Some(audio)
    }

    /// Takes in a frame of audio and returns the text that is to be sent, if
    /// there is one.
    pub fn send_audio(&mut self, frame: &[u8]) -> (res: Result<Option<String>, AsrError>)
        requires
            base64_length(upsampled(old(self)@.carry, frame@).len()) <= isize::MAX,
        ensures
            final(self)@ == audio_taken(old(self)@, frame@).0,
            match audio_taken(old(self)@, frame@).1 {
                None => res matches Ok(None),
                Some(audio) => if old(self)@.connected {
                    res matches Ok(Some(text)) && tells(text@, Audio::Append(audio))
                } else {
                    res matches Err(error) && error@ == Fault::Connection("not connected"@)
                },
            },
    {
        let audio: Vec<u8> = match self.take_audio(frame) {
            Some(audio) => audio,
            None => {
                return Ok(None);
            },
        };
        match self.send_audio_message(&AudioMessage::Append(audio)) {
            Ok(text) => Ok(Some(text)),
            Err(error) => Err(error),
        }
    }

    /// The text of a message about audio, under a new name.
    fn send_audio_message(&self, message: &AudioMessage) -> (res: Result<String, AsrError>)
        requires
            message@ matches Audio::Append(audio) ==> base64_length(audio.len()) <= isize::MAX,
        ensures
            match res {
                Ok(text) => self@.connected && tells(text@, message@),
                Err(error) => {
                    &&& !self@.connected
                    &&& error@ == Fault::Connection("not connected"@)
                },
            },
    {
        let event_id: String = new_event_id();
        let payload: serde_json::Value = match message {
            AudioMessage::Append(audio) => build_audio_append(
                event_id.as_str(),
                audio.as_slice(),
            ),
            AudioMessage::Commit => build_audio_commit(event_id.as_str()),
        };
        proof {
            lemma_messages_exact(
                Seq::empty(),
                Seq::empty(),
                Seq::empty(),
                event_id@,
                match message@ {
                    Audio::Append(audio) => audio,
                    Audio::Commit => Seq::empty(),
                },
            );
            assert(json_of(payload) == audio_json(event_id@, message@));
        }
        self.send_json(&payload)
    }

    /// Ends the audio and returns what is to be sent.
    pub fn close_input(&mut self) -> (list: Vec<AudioMessage>)
        ensures
            final(self)@ == input_closed(old(self)@).0,
            audio_views(list@) == input_closed(old(self)@).1,
    {
        let ghost before = self@;
        let mut list: Vec<AudioMessage> = Vec::new();
        if self.input_finished {
            assert(audio_views(list@) =~= Seq::empty());
            return list;
        }
        self.input_finished = true;
        let rest: Vec<u8> = self.resampler.flush();
        if rest.len() > 0 {
            self.pending_audio_since_commit = true;
            list.push(AudioMessage::Append(rest));
        }
        if self.pending_audio_since_commit {
            list.push(AudioMessage::Commit);
        } else {
            self.maybe_queue_final();
        }
        assert(self@ =~= input_closed(before).0);
        assert(audio_views(list@) =~= input_closed(before).1);
        list
    }

    /// Ends the audio and returns the texts that are to be sent, in order. Where
    /// one cannot be sent, those behind it are not to be sent either.
    pub fn finish_input(&mut self) -> (res: Result<Vec<String>, AsrError>)
        ensures
            final(self)@ == input_closed(old(self)@).0,
            match res {
                Ok(list) => {
                    let messages = input_closed(old(self)@).1;
                    &&& messages.len() == 0 || old(self)@.connected
                    &&& list@.len() == messages.len()
                    &&& forall|i: int|
                        0 <= i < messages.len() ==> tells(#[trigger] list@[i]@, messages[i])
                },
                Err(error) => {
                    &&& input_closed(old(self)@).1.len() > 0
                    &&& !old(self)@.connected
                    &&& error@ == Fault::Connection("not connected"@)
                },
            },
    {
        let ghost messages = input_closed(self@).1;
        let list: Vec<AudioMessage> = self.close_input();
        let mut texts: Vec<String> = Vec::new();
        let mut i: usize = 0;
        while i < list.len()
            invariant
                i <= list@.len(),
                i == texts@.len(),
                audio_views(list@) == messages,
                messages == input_closed(old(self)@).1,
                self@ == input_closed(old(self)@).0,
                i > 0 ==> self@.connected,
                forall|j: int| 0 <= j < i ==> tells(#[trigger] texts@[j]@, messages[j]),
            decreases list@.len() - i,
        {
            assert(messages[i as int] == list@[i as int]@);
            match self.send_audio_message(&list[i]) {
                Ok(text) => {
                    texts.push(text);
                },
                Err(error) => {
                    return Err(error);
                },
            }
            i = i + 1;
        }
        assert(messages.len() == list@.len());
        Ok(texts)
    }

    /// Ends the session. Returns whether there is a socket to close.
    pub fn close(&mut self) -> (was_connected: bool)
        ensures
            was_connected == old(self)@.connected,
            final(self)@ == (Session { connected: false, ..with_final(old(self)@) }),
            final(self)@ == called(old(self)@, Call::Close),
    {
        let was_connected: bool = self.connected;
        self.maybe_queue_final();
        self.connected = false;
        was_connected
    }
}

} // verus!
