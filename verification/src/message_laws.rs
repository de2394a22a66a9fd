//! What a session does with each message and each arrival, whatever it holds
//! otherwise.
//!
//! Messages are told by the JSON values they are, and what is said of a message
//! holds however it comes in: as a value that is read, as a text, or as bytes.

use vstd::prelude::*;

use crate::json::{json_parse, json_parse_bytes, Json};
use crate::provider::{
    after_message, arrival_of, connect_created, connect_dialed, connect_greeted, connect_next,
    connect_sent, connect_updated, first_of, lemma_types_apart, message_events, next_after,
    next_after_message, next_of, transcript, update_of, with_final, Audio, AudioMessage,
    ConnectStep, Connecting, DialOutcome, Dialed, First, FirstRead, Next, NextStep, Session,
};
use crate::session_laws::{after_calls, law_calls_touch_little, Call};
use crate::text::{has_bare_ends, is_blank, law_trimming_takes_the_ends};
use crate::types::{Arrival, AsrConfig, Event, Fault, Incoming};
use crate::wire::{binary_message, received, text_message, Received, ServerMessage};

verus! {

/// Whether the value is an object with this text under the key.
pub open spec fn has_text(json: Json, key: Seq<char>, text: Seq<char>) -> bool {
    json matches Json::Object(members) && members.contains_key(key) && members[key] == Json::Text(
        text,
    )
}

/// Whether the value is no object, or has nothing under the key, or nothing that
/// is a text.
pub open spec fn has_no_text(json: Json, key: Seq<char>) -> bool {
    json matches Json::Object(members) ==> (members.contains_key(key) ==> !(members[key] is Text))
}

/// Whether an arrival is this value.
pub open spec fn arrives_as(arrival: Arrival, json: Json) -> bool {
    match arrival {
        Arrival::Text(text) => json_parse(text) == Ok::<Json, Seq<char>>(json),
        Arrival::Binary(bytes) => json_parse_bytes(bytes) == Ok::<Json, Seq<char>>(json),
        _ => false,
    }
}

/// Whether this is how a session goes on towards the next event once it stands
/// like `line`: with the first event that waits, else by reading the socket,
/// else not at all.
pub open spec fn goes_on(line: Session, outcome: (Session, Next)) -> bool {
    if line.pending.len() > 0 {
        &&& outcome.0 == (Session {
            pending: line.pending.subrange(1, line.pending.len() as int),
            ..line
        })
        &&& outcome.1 == Next::Deliver(line.pending[0])
    } else {
        &&& outcome.0 == line
        &&& outcome.1 == if line.connected {
            Next::Read
        } else {
            Next::Fail(Fault::Connection("not connected"@))
        }
    }
}

/// Whether a message that is this value turns the session into `next` and gives
/// these events, however it comes in; events wait behind those that do.
pub open spec fn comes_to(
    session: Session,
    json: Json,
    arrival: Arrival,
    next: Session,
    list: Seq<Event>,
) -> bool {
    let line = Session { pending: session.pending + list, ..next };
    &&& next.pending == session.pending
    &&& after_message(session, received(json)) == next
    &&& message_events(session, received(json)) == list
    &&& goes_on(line, next_after_message(session, Ok(received(json))))
    &&& arrives_as(arrival, json) ==> goes_on(line, next_after(session, arrival))
}

/// Of a message exactly those texts are read that stand under their keys: its
/// type, its transcript, its own message, and the message of the error in it.
/// What is not there, or is no text, is not read.
pub proof fn law_texts_are_read_as_they_stand(json: Json, text: Seq<char>, error: Json)
    ensures
        has_text(json, "type"@, text) <==> received(json).event_type == Some(text),
        has_text(json, "transcript"@, text) <==> received(json).transcript == Some(text),
        has_text(json, "message"@, text) <==> received(json).message == Some(text),
        has_no_text(json, "type"@) <==> received(json).event_type is None,
        has_no_text(json, "transcript"@) <==> received(json).transcript is None,
        has_no_text(json, "message"@) <==> received(json).message is None,
        json matches Json::Object(members) && members.contains_key("error"@) && members["error"@]
            == error ==> {
            &&& has_text(error, "message"@, text) <==> received(json).error_message == Some(text)
            &&& has_no_text(error, "message"@) <==> received(json).error_message is None
        },
        json matches Json::Object(members) ==> (!members.contains_key("error"@)
            ==> received(json).error_message is None),
        json !is Object ==> received(json).error_message is None,
{
}

/// A value that could be read is a message; one that could not is an error that
/// says why, and whether it was a text or bytes.
pub proof fn law_messages_are_read_or_are_errors(json: Json, error: Seq<char>)
    ensures
        text_message(Ok(json)) == Ok::<Received, Fault>(received(json)),
        binary_message(Ok(json)) == Ok::<Received, Fault>(received(json)),
        text_message(Err(error)) == Err::<Received, Fault>(
            Fault::Protocol("parse server event: "@ + error),
        ),
        binary_message(Err(error)) == Err::<Received, Fault>(
            Fault::Protocol("parse binary server event: "@ + error),
        ),
{
}

/// The next event is the first that waits; where none does, the socket is read;
/// and where there is none, that is the error.
pub proof fn law_first_event_comes_next(session: Session)
    ensures
        goes_on(session, next_of(session)),
{
    if session.pending.len() > 0 {
        assert(session.pending.subrange(1, session.pending.len() as int)
            =~= session.pending.drop_first());
    }
}

/// How any message comes in.
proof fn lemma_comes_to(session: Session, json: Json, arrival: Arrival)
    ensures
        comes_to(
            session,
            json,
            arrival,
            after_message(session, received(json)),
            message_events(session, received(json)),
        ),
{
    let next = after_message(session, received(json));
    let list = message_events(session, received(json));
    law_first_event_comes_next(Session { pending: session.pending + list, ..next });
}

/// A completed transcript is told as it was received, but for white space around
/// it: as definite, and behind that as final where the input has ended and no
/// final text was given. It is what the session remembers.
pub proof fn law_transcript_is_told(
    session: Session,
    json: Json,
    arrival: Arrival,
    a: Seq<char>,
    told: Seq<char>,
    b: Seq<char>,
)
    requires
        has_text(json, "type"@, "conversation.item.input_audio_transcription.completed"@),
        has_text(json, "transcript"@, a + told + b),
        is_blank(a),
        is_blank(b),
        told.len() > 0,
        has_bare_ends(told),
    ensures
        received(json).transcript == Some(a + told + b),
        ({
            let due = session.input_finished && !session.final_emitted;
            comes_to(
                session,
                json,
                arrival,
                Session {
                    completed_text: Some(told),
                    final_emitted: session.final_emitted || due,
                    ..session
                },
                if due {
                    seq![Event::Definite(told), Event::Final(told)]
                } else {
                    seq![Event::Definite(told)]
                },
            )
        }),
{
    lemma_types_apart();
    lemma_comes_to(session, json, arrival);
    law_trimming_takes_the_ends(a, told, b);
    assert(transcript(received(json)) == told);
}

/// A completed transcript that is blank, or is none, is passed over.
pub proof fn law_blank_transcript_is_passed_over(
    session: Session,
    json: Json,
    arrival: Arrival,
    raw: Seq<char>,
)
    requires
        has_text(json, "type"@, "conversation.item.input_audio_transcription.completed"@),
        has_no_text(json, "transcript"@) || has_text(json, "transcript"@, raw) && is_blank(raw),
    ensures
        comes_to(session, json, arrival, session, Seq::empty()),
{
    lemma_types_apart();
    lemma_comes_to(session, json, arrival);
    let none: Seq<char> = Seq::empty();
    law_trimming_takes_the_ends(none, none, none);
    assert(none + none + none =~= none);
    if is_blank(raw) {
        law_trimming_takes_the_ends(raw, none, none);
        assert(raw + none + none =~= raw);
    }
    assert(transcript(received(json)).len() == 0);
}

/// The answer to the settings gives that the session is connected, and changes
/// nothing.
pub proof fn law_answer_to_the_settings_connects(session: Session, json: Json, arrival: Arrival)
    requires
        has_text(json, "type"@, "session.updated"@),
    ensures
        comes_to(session, json, arrival, session, seq![Event::Connected]),
{
    lemma_types_apart();
    lemma_comes_to(session, json, arrival);
}

/// The answer to a commit is remembered, changes nothing else and tells nothing.
pub proof fn law_answer_to_a_commit_is_remembered(session: Session, json: Json, arrival: Arrival)
    requires
        has_text(json, "type"@, "input_audio_buffer.committed"@),
    ensures
        comes_to(
            session,
            json,
            arrival,
            Session { pending_audio: false, ..session },
            Seq::empty(),
        ),
{
    lemma_types_apart();
    lemma_comes_to(session, json, arrival);
}

/// Whether this is what a failure says: the message of the error in it, else its
/// own message, else that it is not known.
pub open spec fn says(json: Json, text: Seq<char>) -> bool {
    let error = match json {
        Json::Object(members) => if members.contains_key("error"@) {
            members["error"@]
        } else {
            Json::Null
        },
        _ => Json::Null,
    };
    ||| has_text(error, "message"@, text)
    ||| has_no_text(error, "message"@) && has_text(json, "message"@, text)
    ||| has_no_text(error, "message"@) && has_no_text(json, "message"@) && text
        == "Unknown error"@
}

/// A failure is told with what it says, and changes nothing.
pub proof fn law_failure_is_told(session: Session, json: Json, arrival: Arrival, text: Seq<char>)
    requires
        has_text(json, "type"@, "error"@) || has_text(
            json,
            "type"@,
            "conversation.item.input_audio_transcription.failed"@,
        ),
        says(json, text),
    ensures
        comes_to(session, json, arrival, session, seq![Event::Error(text)]),
{
    lemma_types_apart();
    lemma_comes_to(session, json, arrival);
}

/// Whether a session does something about messages of this type.
pub open spec fn is_known_type(name: Seq<char>) -> bool {
    ||| name == "session.updated"@
    ||| name == "input_audio_buffer.committed"@
    ||| name == "conversation.item.input_audio_transcription.completed"@
    ||| name == "conversation.item.input_audio_transcription.failed"@
    ||| name == "error"@
}

/// A message of any other type, or of none, is passed over.
pub proof fn law_other_messages_are_passed_over(
    session: Session,
    json: Json,
    arrival: Arrival,
    name: Seq<char>,
)
    requires
        has_no_text(json, "type"@) || has_text(json, "type"@, name) && !is_known_type(name),
    ensures
        comes_to(session, json, arrival, session, Seq::empty()),
{
    lemma_types_apart();
    reveal_strlit("unknown");
    assert("unknown"@.len() == 7);
    lemma_comes_to(session, json, arrival);
}

/// A message that is no JSON changes nothing and is an error that says why.
pub proof fn law_unreadable_message_is_an_error(
    session: Session,
    text: Seq<char>,
    bytes: Seq<u8>,
    error: Seq<char>,
)
    ensures
        json_parse(text) == Err::<Json, Seq<char>>(error) ==> next_after(
            session,
            Arrival::Text(text),
        ) == (session, Next::Fail(Fault::Protocol("parse server event: "@ + error))),
        json_parse_bytes(bytes) == Err::<Json, Seq<char>>(error) ==> next_after(
            session,
            Arrival::Binary(bytes),
        ) == (session, Next::Fail(Fault::Protocol("parse binary server event: "@ + error))),
{
}

/// Pings, pongs and messages of other kinds are passed over; an error of the
/// socket is an error with its text; none of them changes anything.
pub proof fn law_other_arrivals_change_nothing(session: Session, text: Seq<char>, fault: Fault)
    ensures
        goes_on(session, next_after(session, Arrival::Heartbeat)),
        goes_on(session, next_after(session, Arrival::Other(text))),
        next_after(session, Arrival::Failed(text)) == (session, Next::Fail(Fault::Protocol(text))),
        next_after_message(session, Err(fault)) == (session, Next::Fail(fault)),
{
    law_first_event_comes_next(session);
}

/// Whether the final text is owed: a transcript was completed, and none was
/// given as final.
pub open spec fn owes_final(session: Session) -> bool {
    session.completed_text is Some && !session.final_emitted
}

/// Where the final text is owed when it is asked for, it waits behind all else,
/// and is then given; else nothing changes.
pub proof fn law_owed_final_is_queued(session: Session, text: Seq<char>)
    requires
        session.completed_text is Some ==> session.completed_text == Some(text),
    ensures
        with_final(session) == if owes_final(session) {
            Session {
                pending: session.pending + seq![Event::Final(text)],
                final_emitted: true,
                ..session
            }
        } else {
            session
        },
{
    assert(session.pending.push(Event::Final(text)) =~= session.pending + seq![
        Event::Final(text),
    ]);
}

/// When the socket ends or is closed, the session goes on with what waits, the
/// final text at the end of it if it is owed; where nothing waits, the session
/// is closed.
pub proof fn law_end_of_the_socket(
    session: Session,
    arrival: Arrival,
    text: Seq<char>,
    line: Session,
)
    requires
        arrival is Close || arrival is Ended,
        session.completed_text is Some ==> session.completed_text == Some(text),
        line == if owes_final(session) {
            Session {
                pending: session.pending + seq![Event::Final(text)],
                final_emitted: true,
                ..session
            }
        } else {
            session
        },
    ensures
        line.pending.len() > 0 ==> goes_on(line, next_after(session, arrival)),
        line.pending.len() == 0 ==> next_after(session, arrival) == (
            line,
            Next::Deliver(Event::Closed),
        ),
{
    law_owed_final_is_queued(session, text);
    law_first_event_comes_next(line);
}

/// Once the input has ended, whatever is called, the next completed transcript is
/// told as definite and, if no final text was given, as final.
pub proof fn law_final_follows_the_end_of_input(
    session: Session,
    calls: Seq<Call>,
    json: Json,
    arrival: Arrival,
    a: Seq<char>,
    told: Seq<char>,
    b: Seq<char>,
)
    requires
        session.input_finished,
        !after_calls(session, calls).final_emitted,
        has_text(json, "type"@, "conversation.item.input_audio_transcription.completed"@),
        has_text(json, "transcript"@, a + told + b),
        is_blank(a),
        is_blank(b),
        told.len() > 0,
        has_bare_ends(told),
    ensures
        ({
            let before = after_calls(session, calls);
            comes_to(
                before,
                json,
                arrival,
                Session { completed_text: Some(told), final_emitted: true, ..before },
                seq![Event::Definite(told), Event::Final(told)],
            )
        }),
{
    lemma_input_stays_ended(session, calls);
    law_transcript_is_told(after_calls(session, calls), json, arrival, a, told, b);
}

/// An input that has ended stays ended.
proof fn lemma_input_stays_ended(session: Session, calls: Seq<Call>)
    requires
        session.input_finished,
    ensures
        after_calls(session, calls).input_finished,
    decreases calls.len(),
{
    if calls.len() > 0 {
        lemma_input_stays_ended(session, calls.drop_last());
        law_calls_touch_little(after_calls(session, calls.drop_last()), calls.last());
    }
}

/// A socket that is there is noted and read for the greeting; without one,
/// connecting ends with the error, and nothing is noted.
pub proof fn law_dialing(session: Session, error: Seq<char>)
    ensures
        connect_dialed(session, Dialed::Established) == (
            Session { connected: true, ..session },
            Connecting::ReadCreated,
        ),
        connect_dialed(session, Dialed::Failed(error)) == (
            session,
            Connecting::Failed(Fault::Connection(error)),
        ),
        connect_dialed(session, Dialed::TimedOut) == (
            session,
            Connecting::Failed(Fault::Connection("connection timed out"@)),
        ),
{
}

/// A greeting is answered with the settings, if there is a socket, and changes
/// nothing.
pub proof fn law_greeting_is_answered(
    session: Session,
    config: AsrConfig,
    json: Json,
    arrival: Arrival,
)
    requires
        has_text(json, "type"@, "session.created"@),
    ensures
        ({
            let step = if session.connected {
                Connecting::SendUpdate(Ok::<Json, Seq<char>>(update_of(config)))
            } else {
                Connecting::Failed(Fault::Connection("not connected"@))
            };
            &&& connect_greeted(session, config, received(json)) == (session, step)
            &&& arrives_as(arrival, json) ==> connect_created(
                session,
                config,
                first_of(Some(arrival)),
            ) == (session, step)
        }),
{
    lemma_types_apart();
    let message = received(json);
    assert(message_events(session, message) =~= Seq::empty());
    assert(session.pending + Seq::<Event>::empty() =~= session.pending);
}

/// Any other first message ends connecting with an error that names its type,
/// and changes nothing.
pub proof fn law_other_greeting_is_refused(
    session: Session,
    config: AsrConfig,
    json: Json,
    arrival: Arrival,
    name: Seq<char>,
)
    requires
        has_text(json, "type"@, name) && name != "session.created"@ || has_no_text(json, "type"@)
            && name == "unknown"@,
    ensures
        ({
            let step = Connecting::Failed(
                Fault::Connection("expected session.created event, got "@ + name),
            );
            &&& connect_greeted(session, config, received(json)) == (session, step)
            &&& arrives_as(arrival, json) ==> connect_created(
                session,
                config,
                first_of(Some(arrival)),
            ) == (session, step)
        }),
{
    lemma_types_apart();
    reveal_strlit("unknown");
    assert("unknown"@.len() == 7);
}

/// While the greeting is waited for, pings and pongs are passed over, and
/// everything else ends connecting with an error that tells it; nothing changes.
pub proof fn law_no_greeting_is_an_error(
    session: Session,
    config: AsrConfig,
    text: Seq<char>,
    bytes: Seq<u8>,
    error: Seq<char>,
)
    ensures
        connect_created(session, config, first_of(Some(Arrival::Heartbeat))) == (
            session,
            Connecting::ReadCreated,
        ),
        connect_created(session, config, first_of(None)) == (
            session,
            Connecting::Failed(Fault::Connection("timeout waiting for server event"@)),
        ),
        connect_created(session, config, first_of(Some(Arrival::Ended))) == (
            session,
            Connecting::Failed(Fault::Connection("connection closed"@)),
        ),
        connect_created(session, config, first_of(Some(Arrival::Close(text)))) == (
            session,
            Connecting::Failed(Fault::Connection("connection closed unexpectedly: "@ + text)),
        ),
        connect_created(session, config, first_of(Some(Arrival::Failed(text)))) == (
            session,
            Connecting::Failed(Fault::Connection("WebSocket error: "@ + text)),
        ),
        connect_created(session, config, first_of(Some(Arrival::Other(text)))) == (
            session,
            Connecting::Failed(Fault::Protocol("unexpected websocket message: "@ + text)),
        ),
        json_parse(text) == Err::<Json, Seq<char>>(error) ==> connect_created(
            session,
            config,
            first_of(Some(Arrival::Text(text))),
        ) == (
            session,
            Connecting::Failed(Fault::Protocol("parse server event: "@ + error)),
        ),
        json_parse_bytes(bytes) == Err::<Json, Seq<char>>(error) ==> connect_created(
            session,
            config,
            first_of(Some(Arrival::Binary(bytes))),
        ) == (
            session,
            Connecting::Failed(Fault::Protocol("parse binary server event: "@ + error)),
        ),
{
}

/// Whether the event is a transcript.
pub open spec fn is_spoken(event: Event) -> bool {
    event is Interim || event is Definite || event is Final
}

/// What an event that is no transcript means for connecting.
pub open spec fn means(event: Event, step: Connecting) -> bool {
    match event {
        Event::Connected => step is Connected,
        Event::Error(text) => step == Connecting::Failed(Fault::Protocol(text)),
        Event::Closed => step == Connecting::Failed(
            Fault::Connection("connection closed before session.updated"@),
        ),
        _ => false,
    }
}

/// Connecting goes by the next events: transcripts are passed over, and the first
/// other event decides. Where none does, the socket is read; and where there is
/// none, that is the error.
pub proof fn law_first_other_event_decides(
    session: Session,
    passed: Seq<Event>,
    rest: Seq<Event>,
)
    requires
        session.pending == passed + rest,
        forall|i: int| 0 <= i < passed.len() ==> is_spoken(#[trigger] passed[i]),
        rest.len() > 0 ==> !is_spoken(rest[0]),
    ensures
        ({
            let outcome = connect_next(next_of(session).0, next_of(session).1);
            if rest.len() > 0 {
                &&& outcome.0 == (Session {
                    pending: rest.subrange(1, rest.len() as int),
                    ..session
                })
                &&& means(rest[0], outcome.1)
            } else {
                &&& outcome.0 == (Session { pending: Seq::empty(), ..session })
                &&& outcome.1 == if session.connected {
                    Connecting::ReadUpdated
                } else {
                    Connecting::Failed(Fault::Connection("not connected"@))
                }
            }
        }),
    decreases passed.len(),
{
    law_first_event_comes_next(session);
    if passed.len() > 0 {
        let next = next_of(session).0;
        let fewer = passed.drop_first();
        assert(is_spoken(passed[0]));
        assert(session.pending[0] == passed[0]);
        assert(next.pending =~= fewer + rest);
        assert forall|i: int| 0 <= i < fewer.len() implies is_spoken(#[trigger] fewer[i]) by {
            assert(fewer[i] == passed[i + 1]);
        }
        law_first_other_event_decides(next, fewer, rest);
    } else {
        assert(session.pending =~= rest);
        if rest.len() == 0 {
            assert(session.pending =~= Seq::<Event>::empty());
        }
    }
}

/// Settings that were sent are waited on; settings that could not be end
/// connecting with the error, and nothing changes.
pub proof fn law_settings_that_were_sent(session: Session, error: Seq<char>)
    ensures
        connect_sent(session, None) == connect_next(next_of(session).0, next_of(session).1),
        connect_sent(session, Some(error)) == (
            session,
            Connecting::Failed(Fault::Protocol("send client event: "@ + error)),
        ),
{
}

/// While the answer to the settings is waited for, an arrival counts as it does
/// in any session, and connecting goes by the event that it gives: where a
/// transcript comes of it, by those behind that; where an error does, it ends
/// with that; where more is to be read, it goes on.
pub proof fn law_answer_counts_as_in_any_session(session: Session, arrival: Arrival)
    ensures
        ({
            let (next, step) = next_after(session, arrival);
            match step {
                Next::Deliver(event) => if is_spoken(event) {
                    connect_updated(session, arrival) == connect_sent(next, None)
                } else {
                    connect_updated(session, arrival).0 == next && means(
                        event,
                        connect_updated(session, arrival).1,
                    )
                },
                Next::Fail(fault) => connect_updated(session, arrival) == (
                    next,
                    Connecting::Failed(fault),
                ),
                Next::Read => connect_updated(session, arrival) == (next, Connecting::ReadUpdated),
            }
        }),
{
}

/// The steps, the messages and the outcomes that a session is told or tells say
/// what they hold.
pub proof fn law_steps_say_what_they_hold(
    next: NextStep,
    step: ConnectStep,
    read: FirstRead,
    outcome: DialOutcome,
    audio: AudioMessage,
    message: ServerMessage,
    arrival: Option<Incoming>,
)
    ensures
        match next {
            NextStep::Deliver(event) => next@ == Next::Deliver(event@),
            NextStep::Fail(error) => next@ == Next::Fail(error@),
            NextStep::Read => next@ is Read,
        },
        match step {
            ConnectStep::ReadCreated => step@ is ReadCreated,
            ConnectStep::SendUpdate(text) => step@ == Connecting::SendUpdate(json_parse(text@)),
            ConnectStep::ReadUpdated => step@ is ReadUpdated,
            ConnectStep::Finished(Ok(_)) => step@ is Connected,
            ConnectStep::Finished(Err(error)) => step@ == Connecting::Failed(error@),
        },
        match read {
            FirstRead::Message(message) => read@ == First::Message(message@),
            FirstRead::Again => read@ is Again,
            FirstRead::Fail(error) => read@ == First::Fail(error@),
        },
        match outcome {
            DialOutcome::Established => outcome@ is Established,
            DialOutcome::Failed(error) => outcome@ == Dialed::Failed(error@),
            DialOutcome::TimedOut => outcome@ is TimedOut,
        },
        match audio {
            AudioMessage::Append(bytes) => audio@ == Audio::Append(bytes@),
            AudioMessage::Commit => audio@ is Commit,
        },
        is_text_of(message@.event_type, message.event_type),
        is_text_of(message@.transcript, message.transcript),
        is_text_of(message@.error_message, message.error_message),
        is_text_of(message@.message, message.message),
        match arrival {
            Some(incoming) => arrival_of(arrival) == Some(incoming@),
            None => arrival_of(arrival) is None,
        },
{
}

/// Whether this is what an optional text holds.
pub open spec fn is_text_of(view: Option<Seq<char>>, text: Option<String>) -> bool {
    match text {
        Some(text) => view == Some(text@),
        None => view is None,
    }
}

} // verus!
