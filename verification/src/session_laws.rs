//! What holds of a session whatever is done with it, and in whatever order.

use vstd::prelude::*;

use crate::audio_laws::{
    carry_after_all, is_sample, law_frames_join, law_last_sample_goes_out_twice, upsampled_all,
    whole,
};
use crate::json::{json_parse, json_parse_bytes, Json};
use crate::message_laws::{has_text, law_owed_final_is_queued, owes_final};
use crate::provider::{
    after_message, audio_json, audio_taken, connect_created, connect_dialed, connect_next,
    connect_sent, connect_updated, fresh, input_closed, is_transcript, lemma_types_apart,
    message_events, message_type, next_after, next_after_close, next_after_message, next_of,
    taken_in, tells, transcript, update_of, with_final, Audio, Connecting, Dialed, First, Next,
    Session,
};
use crate::resample::{carried, carry_after, flushed, upsampled, waiting};
use crate::text::{is_white_space, lemma_trimmed};
use crate::types::{Arrival, AsrConfig, Event, Fault};
use crate::wire::{
    audio_append, audio_commit, base64_text, binary_message, is_event_id, is_random_uuid,
    session_language, session_model, session_prompt, session_update, text_message, Received,
    TARGET_SAMPLE_RATE_HZ,
};

verus! {

/// A call that changes a session, with what it is told.
pub enum Call {
    /// `next_event`.
    Next,
    /// `receive`.
    Receive(Arrival),
    /// `receive_message`.
    ReceiveMessage(Result<Received, Fault>),
    /// `parse_server_event`.
    Parse(Received),
    /// `maybe_queue_final`.
    QueueFinal,
    /// `take_audio` and `send_audio`.
    Audio(Seq<u8>),
    /// `close_input` and `finish_input`.
    EndInput,
    /// `close`.
    Close,
    /// `dialed`.
    Dialed(Dialed),
    /// `session_created` and, with a message, `greeted`.
    Created(AsrConfig, First),
    /// `update_sent`.
    Sent(Option<Seq<char>>),
    /// `session_updated`.
    Updated(Arrival),
}

/// The session after a call.
pub open spec fn called(session: Session, call: Call) -> Session {
    match call {
        Call::Next => next_of(session).0,
        Call::Receive(arrival) => next_after(session, arrival).0,
        Call::ReceiveMessage(message) => next_after_message(session, message).0,
        Call::Parse(message) => after_message(session, message),
        Call::QueueFinal => with_final(session),
        Call::Audio(frame) => audio_taken(session, frame).0,
        Call::EndInput => input_closed(session).0,
        Call::Close => Session { connected: false, ..with_final(session) },
        Call::Dialed(outcome) => connect_dialed(session, outcome).0,
        Call::Created(config, first) => connect_created(session, config, first).0,
        Call::Sent(failure) => connect_sent(session, failure).0,
        Call::Updated(arrival) => connect_updated(session, arrival).0,
    }
}

/// The event that a step hands out, if it does.
pub open spec fn delivered(next: Next) -> Seq<Event> {
    match next {
        Next::Deliver(event) => seq![event],
        _ => Seq::empty(),
    }
}

/// The events that a call hands out.
pub open spec fn handed_out(session: Session, call: Call) -> Seq<Event> {
    match call {
        Call::Next => delivered(next_of(session).1),
        Call::Receive(arrival) => delivered(next_after(session, arrival).1),
        Call::ReceiveMessage(message) => delivered(next_after_message(session, message).1),
        Call::Parse(message) => message_events(session, message),
        _ => Seq::empty(),
    }
}

/// The session after a list of calls.
pub open spec fn after_calls(session: Session, calls: Seq<Call>) -> Session
    decreases calls.len(),
{
    if calls.len() == 0 {
        session
    } else {
        called(after_calls(session, calls.drop_last()), calls.last())
    }
}

/// The events that a list of calls hands out, in order.
pub open spec fn all_handed_out(session: Session, calls: Seq<Call>) -> Seq<Event>
    decreases calls.len(),
{
    if calls.len() == 0 {
        Seq::empty()
    } else {
        all_handed_out(session, calls.drop_last()) + handed_out(
            after_calls(session, calls.drop_last()),
            calls.last(),
        )
    }
}

/// How many of the events are final texts.
pub open spec fn finals(list: Seq<Event>) -> nat
    decreases list.len(),
{
    if list.len() == 0 {
        0
    } else {
        finals(list.drop_last()) + if list.last() is Final {
            1nat
        } else {
            0
        }
    }
}

/// The final texts of two lists.
proof fn lemma_finals_add(a: Seq<Event>, b: Seq<Event>)
    ensures
        finals(a + b) == finals(a) + finals(b),
    decreases b.len(),
{
    if b.len() == 0 {
        assert(a + b =~= a);
    } else {
        lemma_finals_add(a, b.drop_last());
        assert((a + b).drop_last() =~= a + b.drop_last());
    }
}

/// The first event and the others.
proof fn lemma_finals_first(list: Seq<Event>)
    requires
        list.len() > 0,
    ensures
        finals(list) == finals(seq![list[0]]) + finals(list.drop_first()),
{
    lemma_finals_add(seq![list[0]], list.drop_first());
    assert(list =~= seq![list[0]] + list.drop_first());
}

/// One event.
proof fn lemma_finals_one(event: Event)
    ensures
        finals(seq![event]) == if event is Final {
            1nat
        } else {
            0
        },
{
    assert(seq![event].drop_last() =~= Seq::empty());
    reveal_with_fuel(finals, 2);
}

/// Asking for the next event hands out what it takes away.
proof fn lemma_next_keeps(session: Session)
    ensures
        delivered(next_of(session).1) + next_of(session).0.pending == session.pending,
        finals(delivered(next_of(session).1)) + finals(next_of(session).0.pending) == finals(
            session.pending,
        ),
        next_of(session).0 == (Session { pending: next_of(session).0.pending, ..session }),
{
    if session.pending.len() > 0 {
        lemma_finals_first(session.pending);
        assert(seq![session.pending[0]] + session.pending.drop_first() =~= session.pending);
    } else {
        assert(delivered(next_of(session).1) + next_of(session).0.pending =~= session.pending);
    }
}

/// The events of a message hold a final text only if none was given, and then
/// it is the last one, one alone, and that of the message.
proof fn lemma_message_finals(session: Session, message: Received)
    ensures
        ({
            let next = after_message(session, message);
            let list = message_events(session, message);
            &&& next.pending == session.pending
            &&& session.final_emitted ==> next.final_emitted
            &&& finals(list) == if next.final_emitted && !session.final_emitted {
                1nat
            } else {
                0
            }
            &&& next.final_emitted && !session.final_emitted ==> {
                &&& list.len() > 0
                &&& next.completed_text matches Some(text) && list.last() == Event::Final(text)
            }
        }),
{
    let list = message_events(session, message);
    lemma_types_apart();
    reveal_with_fuel(finals, 3);
    if list.len() == 2 {
        assert(list.drop_last() =~= seq![list[0]]);
        assert(seq![list[0]].drop_last() =~= Seq::empty());
    } else if list.len() == 1 {
        assert(list.drop_last() =~= Seq::empty());
    }
}

/// A session that gives its final text gives one.
proof fn lemma_with_final(session: Session)
    ensures
        session.final_emitted ==> with_final(session) == session,
        finals(with_final(session).pending) == finals(session.pending) + if with_final(
            session,
        ).final_emitted && !session.final_emitted {
            1nat
        } else {
            0
        },
        session.final_emitted ==> with_final(session).final_emitted,
        with_final(session).completed_text == session.completed_text,
        with_final(session) == session || (session.completed_text matches Some(text)
            && with_final(session).pending == session.pending.push(Event::Final(text))),
{
    if let Some(text) = session.completed_text {
        let list = session.pending.push(Event::Final(text));
        assert(list.drop_last() =~= session.pending);
    }
}

/// Passing events over while connecting takes from those that wait, and changes
/// nothing else.
proof fn lemma_connect_next(session: Session, next: Next)
    ensures
        ({
            let end = connect_next(session, next).0;
            &&& finals(end.pending) <= finals(session.pending)
            &&& end == (Session { pending: end.pending, ..session })
        }),
    decreases
            session.pending.len(),
            if next is Deliver {
                1int
            } else {
                0int
            },
{
    match next {
        Next::Deliver(Event::Interim(_))
        | Next::Deliver(Event::Definite(_))
        | Next::Deliver(Event::Final(_)) => {
            lemma_next_keeps(session);
            lemma_connect_next(next_of(session).0, next_of(session).1);
        },
        _ => {},
    }
}

/// What a message that was read, or could not be, does to the final texts.
proof fn lemma_message_step(session: Session, message: Result<Received, Fault>)
    ensures
        ({
            let (next, step) = next_after_message(session, message);
            &&& session.final_emitted ==> next.final_emitted
            &&& finals(delivered(step)) + finals(next.pending) == finals(session.pending) + if
                next.final_emitted && !session.final_emitted {
                1nat
            } else {
                0
            }
        }),
{
    if let Ok(message) = message {
        let middle = taken_in(session, message);
        lemma_message_finals(session, message);
        lemma_finals_add(session.pending, message_events(session, message));
        lemma_next_keeps(middle);
    } else {
        lemma_finals_add(Seq::empty(), session.pending);
    }
}

/// What an arrival does to the final texts.
proof fn lemma_arrival_step(session: Session, arrival: Arrival)
    ensures
        ({
            let (next, step) = next_after(session, arrival);
            &&& session.final_emitted ==> next.final_emitted
            &&& finals(delivered(step)) + finals(next.pending) == finals(session.pending) + if
                next.final_emitted && !session.final_emitted {
                1nat
            } else {
                0
            }
        }),
{
    match arrival {
        Arrival::Text(text) => {
            lemma_message_step(session, text_message(json_parse(text)));
        },
        Arrival::Binary(bytes) => {
            lemma_message_step(session, binary_message(json_parse_bytes(bytes)));
        },
        Arrival::Close(_) | Arrival::Ended => {
            lemma_with_final(session);
            lemma_next_keeps(with_final(session));
            lemma_finals_one(Event::Closed);
        },
        Arrival::Heartbeat | Arrival::Other(_) => {
            lemma_next_keeps(session);
        },
        Arrival::Failed(_) => {},
    }
}

/// What any call does to the final texts.
proof fn lemma_call_finals(session: Session, call: Call)
    ensures
        session.final_emitted ==> called(session, call).final_emitted,
        finals(handed_out(session, call)) + finals(called(session, call).pending) <= finals(
            session.pending,
        ) + if called(session, call).final_emitted && !session.final_emitted {
            1nat
        } else {
            0
        },
        !connects(call) ==> finals(handed_out(session, call)) + finals(
            called(session, call).pending,
        ) == finals(session.pending) + if called(session, call).final_emitted
            && !session.final_emitted {
            1nat
        } else {
            0
        },
{
    match call {
        Call::Next => {
            lemma_next_keeps(session);
        },
        Call::Receive(arrival) => {
            lemma_arrival_step(session, arrival);
        },
        Call::ReceiveMessage(message) => {
            lemma_message_step(session, message);
        },
        Call::Parse(message) => {
            lemma_message_finals(session, message);
        },
        Call::QueueFinal | Call::Close => {
            lemma_with_final(session);
        },
        Call::EndInput => {
            let ended = Session { input_finished: true, carry: None, ..session };
            lemma_with_final(ended);
        },
        Call::Created(config, First::Message(message)) => {
            lemma_message_finals(session, message);
            lemma_finals_add(session.pending, message_events(session, message));
        },
        Call::Sent(_) => {
            lemma_next_keeps(session);
            lemma_connect_next(next_of(session).0, next_of(session).1);
        },
        Call::Updated(arrival) => {
            lemma_arrival_step(session, arrival);
            let (next, step) = next_after(session, arrival);
            lemma_connect_next(next, step);
        },
        _ => {},
    }
}

/// From a fresh session on, whatever is called, at most one final text is handed
/// out or waits to be; and none before the session has noted that it gave one.
pub proof fn law_one_final(calls: Seq<Call>)
    ensures
        finals(all_handed_out(fresh(), calls) + after_calls(fresh(), calls).pending) <= 1,
        !after_calls(fresh(), calls).final_emitted ==> finals(
            all_handed_out(fresh(), calls) + after_calls(fresh(), calls).pending,
        ) == 0,
{
    lemma_one_final(calls);
    lemma_finals_add(all_handed_out(fresh(), calls), after_calls(fresh(), calls).pending);
}

/// The final texts after a list of calls.
proof fn lemma_one_final(calls: Seq<Call>)
    ensures
        finals(all_handed_out(fresh(), calls)) + finals(after_calls(fresh(), calls).pending) <= if
        after_calls(fresh(), calls).final_emitted {
            1nat
        } else {
            0
        },
    decreases calls.len(),
{
    if calls.len() > 0 {
        let shorter = calls.drop_last();
        lemma_one_final(shorter);
        let session = after_calls(fresh(), shorter);
        lemma_call_finals(session, calls.last());
        lemma_finals_add(all_handed_out(fresh(), shorter), handed_out(session, calls.last()));
    }
}

/// Whether a call is one of those that connect.
pub open spec fn connects(call: Call) -> bool {
    call is Dialed || call is Created || call is Sent || call is Updated
}

/// Whatever is called, the session notes that it gave the final text if and only
/// if a final text is among what it then hands out or keeps waiting, once.
/// (While connecting, events are passed over; those calls are left out.)
pub proof fn law_final_is_given_when_noted(session: Session, calls: Seq<Call>)
    requires
        forall|i: int| 0 <= i < calls.len() ==> !connects(#[trigger] calls[i]),
    ensures
        finals(all_handed_out(session, calls) + after_calls(session, calls).pending) == finals(
            session.pending,
        ) + if after_calls(session, calls).final_emitted && !session.final_emitted {
            1nat
        } else {
            0
        },
        session.final_emitted ==> after_calls(session, calls).final_emitted,
    decreases calls.len(),
{
    if calls.len() == 0 {
        assert(all_handed_out(session, calls) + session.pending =~= session.pending);
    } else {
        let shorter = calls.drop_last();
        let call = calls[calls.len() - 1];
        assert forall|i: int| 0 <= i < shorter.len() implies !connects(#[trigger] shorter[i]) by {
            assert(shorter[i] == calls[i]);
        }
        law_final_is_given_when_noted(session, shorter);
        let before = after_calls(session, shorter);
        let sooner = all_handed_out(session, shorter);
        let next = after_calls(session, calls);
        lemma_call_finals(before, call);
        lemma_finals_add(sooner, before.pending);
        lemma_finals_add(sooner, handed_out(before, call));
        lemma_finals_add(all_handed_out(session, calls), next.pending);
    }
}

/// What a message does to the events that wait.
proof fn lemma_message_order(session: Session, message: Result<Received, Fault>)
    ensures
        ({
            let (next, step) = next_after_message(session, message);
            &&& session.pending.is_prefix_of(delivered(step) + next.pending)
            &&& next.final_emitted && !session.final_emitted ==> (next.completed_text matches Some(
                text,
            ) && (delivered(step) + next.pending).last() == Event::Final(text))
        }),
{
    match message {
        Ok(message) => {
            let middle = taken_in(session, message);
            lemma_message_finals(session, message);
            lemma_next_keeps(middle);
            assert(session.pending =~= middle.pending.subrange(0, session.pending.len() as int));
        },
        Err(_) => {
            assert(Seq::<Event>::empty() + session.pending =~= session.pending);
        },
    }
}

/// What the end of the socket does to the events that wait.
proof fn lemma_close_order(session: Session)
    ensures
        ({
            let (next, step) = next_after_close(session);
            &&& session.pending.is_prefix_of(delivered(step) + next.pending)
            &&& next.final_emitted && !session.final_emitted ==> (next.completed_text matches Some(
                text,
            ) && (delivered(step) + next.pending).last() == Event::Final(text))
        }),
{
    let ending = with_final(session);
    lemma_with_final(session);
    lemma_next_keeps(ending);
    assert(session.pending =~= ending.pending.subrange(0, session.pending.len() as int));
}

/// Events are handed out in the order in which they were queued, and none is
/// lost: what waits before a call is what the call hands out first and what
/// then still waits first. A call that first gives the final text gives it
/// behind all else, and it is the last completed transcript. (While connecting,
/// events are passed over: see `law_connecting_passes_over`.)
pub proof fn law_events_in_order(session: Session, call: Call)
    requires
        !connects(call),
    ensures
        ({
            let next = called(session, call);
            let list = handed_out(session, call) + next.pending;
            &&& call is Parse || session.pending.is_prefix_of(list)
            &&& next.final_emitted && !session.final_emitted ==> (next.completed_text matches Some(
                text,
            ) && (if call is Parse {
                handed_out(session, call)
            } else {
                list
            }).last() == Event::Final(text))
        }),
{
    let next = called(session, call);
    let list = handed_out(session, call) + next.pending;
    match call {
        Call::Next => {
            lemma_next_keeps(session);
        },
        Call::Receive(arrival) => match arrival {
            Arrival::Text(text) => {
                lemma_message_order(session, text_message(json_parse(text)));
            },
            Arrival::Binary(bytes) => {
                lemma_message_order(session, binary_message(json_parse_bytes(bytes)));
            },
            Arrival::Close(_) | Arrival::Ended => {
                lemma_close_order(session);
            },
            Arrival::Heartbeat | Arrival::Other(_) => {
                lemma_next_keeps(session);
            },
            Arrival::Failed(_) => {
                assert(list =~= session.pending);
            },
        },
        Call::ReceiveMessage(message) => {
            lemma_message_order(session, message);
        },
        Call::Parse(message) => {
            lemma_message_finals(session, message);
        },
        Call::QueueFinal | Call::Close => {
            lemma_with_final(session);
            assert(list =~= next.pending);
            assert(session.pending =~= list.subrange(0, session.pending.len() as int));
        },
        Call::EndInput => {
            let ended = Session { input_finished: true, carry: None, ..session };
            lemma_with_final(ended);
            assert(list =~= next.pending);
            assert(session.pending =~= list.subrange(0, session.pending.len() as int));
        },
        _ => {
            assert(list =~= session.pending);
        },
    }
}

/// The message that an arrival brings, if it does.
pub open spec fn message_in(arrival: Arrival) -> Option<Received> {
    match arrival {
        Arrival::Text(text) => match text_message(json_parse(text)) {
            Ok(message) => Some(message),
            Err(_) => None,
        },
        Arrival::Binary(bytes) => match binary_message(json_parse_bytes(bytes)) {
            Ok(message) => Some(message),
            Err(_) => None,
        },
        _ => None,
    }
}

/// The message that a call takes in, if it does.
pub open spec fn message_of(call: Call) -> Option<Received> {
    match call {
        Call::Receive(arrival) => message_in(arrival),
        Call::ReceiveMessage(Ok(message)) => Some(message),
        Call::Parse(message) => Some(message),
        Call::Updated(arrival) => message_in(arrival),
        Call::Created(_, First::Message(message)) => if message_type(message)
            == "session.created"@ {
            Some(message)
        } else {
            None
        },
        _ => None,
    }
}

/// The text that was completed last, once a message may have come.
pub open spec fn completed_with(text: Option<Seq<char>>, message: Option<Received>) -> Option<
    Seq<char>,
> {
    match message {
        Some(message) => if is_transcript(message) {
            Some(transcript(message))
        } else {
            text
        },
        None => text,
    }
}

/// The transcript that was completed last in a list of calls.
pub open spec fn last_transcript(calls: Seq<Call>) -> Option<Seq<char>>
    decreases calls.len(),
{
    if calls.len() == 0 {
        None
    } else {
        completed_with(last_transcript(calls.drop_last()), message_of(calls.last()))
    }
}

/// What a message does to the text that was completed last.
proof fn lemma_message_completed(session: Session, message: Received)
    ensures
        after_message(session, message).completed_text == completed_with(
            session.completed_text,
            Some(message),
        ),
{
    lemma_types_apart();
}

/// What an arrival does to the text that was completed last.
proof fn lemma_arrival_completed(session: Session, arrival: Arrival)
    ensures
        next_after(session, arrival).0.completed_text == completed_with(
            session.completed_text,
            message_in(arrival),
        ),
{
    match message_in(arrival) {
        Some(message) => {
            lemma_message_completed(session, message);
            lemma_next_keeps(taken_in(session, message));
        },
        None => {
            lemma_with_final(session);
            lemma_next_keeps(session);
            lemma_next_keeps(with_final(session));
        },
    }
}

/// What a call does to the text that was completed last.
proof fn lemma_call_completed(session: Session, call: Call)
    ensures
        called(session, call).completed_text == completed_with(
            session.completed_text,
            message_of(call),
        ),
{
    match call {
        Call::Receive(arrival) => {
            lemma_arrival_completed(session, arrival);
        },
        Call::ReceiveMessage(Ok(message)) => {
            lemma_message_completed(session, message);
            lemma_next_keeps(taken_in(session, message));
        },
        Call::Parse(message) => {
            lemma_message_completed(session, message);
        },
        Call::Created(_, First::Message(message)) => {
            lemma_message_completed(session, message);
        },
        Call::Sent(_) => {
            lemma_next_keeps(session);
            lemma_connect_next(next_of(session).0, next_of(session).1);
        },
        Call::Updated(arrival) => {
            lemma_arrival_completed(session, arrival);
            let (next, step) = next_after(session, arrival);
            lemma_connect_next(next, step);
        },
        _ => {},
    }
}

/// The text that becomes the final one is the transcript that was completed
/// last.
pub proof fn law_completed_text_is_the_last_transcript(calls: Seq<Call>)
    ensures
        after_calls(fresh(), calls).completed_text == last_transcript(calls),
    decreases calls.len(),
{
    if calls.len() > 0 {
        law_completed_text_is_the_last_transcript(calls.drop_last());
        lemma_call_completed(after_calls(fresh(), calls.drop_last()), calls.last());
    }
}

/// The events that wait once a call that connects has taken in what it is told,
/// before any is passed over.
pub open spec fn lined_up(session: Session, call: Call) -> Seq<Event> {
    match call {
        Call::Created(_, First::Message(message)) => if message_type(message)
            == "session.created"@ {
            taken_in(session, message).pending
        } else {
            session.pending
        },
        Call::Updated(arrival) => arrived(session, arrival).pending,
        _ => session.pending,
    }
}

/// The session once it has taken in an arrival, before anything is handed out.
pub open spec fn arrived(session: Session, arrival: Arrival) -> Session {
    match message_in(arrival) {
        Some(message) => taken_in(session, message),
        None => if arrival is Close || arrival is Ended {
            with_final(session)
        } else {
            session
        },
    }
}

/// What an arrival queues stands behind what waits, and is the final text at the
/// end where that is first given.
proof fn lemma_arrived(session: Session, arrival: Arrival)
    ensures
        ({
            let line = arrived(session, arrival);
            &&& session.pending.is_prefix_of(line.pending)
            &&& line.final_emitted && !session.final_emitted ==> (line.completed_text matches Some(
                text,
            ) && line.pending.last() == Event::Final(text))
        }),
{
    let line = arrived(session, arrival).pending;
    assert(line.subrange(0, session.pending.len() as int) =~= session.pending) by {
        lemma_with_final(session);
    }
    match message_in(arrival) {
        Some(message) => {
            lemma_message_finals(session, message);
        },
        None => {
            lemma_with_final(session);
        },
    }
}

/// What an arrival comes to takes from the front of what waits then, and changes
/// nothing else.
proof fn lemma_arrived_suffix(session: Session, arrival: Arrival)
    ensures
        ({
            let line = arrived(session, arrival);
            let next = next_after(session, arrival).0;
            &&& next.pending.is_suffix_of(line.pending)
            &&& next == (Session { pending: next.pending, ..line })
        }),
{
    let line = arrived(session, arrival);
    assert(line.pending.subrange(0, line.pending.len() as int) =~= line.pending);
    lemma_next_suffix(line);
    lemma_next_keeps(line);
}

/// A suffix of a suffix.
proof fn lemma_suffix(a: Seq<Event>, b: Seq<Event>, c: Seq<Event>)
    requires
        a.is_suffix_of(b),
        b.is_suffix_of(c),
    ensures
        a.is_suffix_of(c),
{
    assert(c.subrange(c.len() - a.len(), c.len() as int) =~= b.subrange(
        b.len() - a.len(),
        b.len() as int,
    ));
}

/// Asking for the next event takes from the front.
proof fn lemma_next_suffix(session: Session)
    ensures
        next_of(session).0.pending.is_suffix_of(session.pending),
{
    assert(session.pending.subrange(0, session.pending.len() as int) =~= session.pending);
}

/// Passing events over takes from the front.
proof fn lemma_connect_suffix(session: Session, next: Next)
    ensures
        connect_next(session, next).0.pending.is_suffix_of(session.pending),
    decreases
            session.pending.len(),
            if next is Deliver {
                1int
            } else {
                0int
            },
{
    let end = connect_next(session, next).0;
    match next {
        Next::Deliver(Event::Interim(_))
        | Next::Deliver(Event::Definite(_))
        | Next::Deliver(Event::Final(_)) => {
            let (after, step) = next_of(session);
            lemma_next_suffix(session);
            lemma_connect_suffix(after, step);
            lemma_suffix(end.pending, after.pending, session.pending);
        },
        _ => {
            assert(session.pending.subrange(0, session.pending.len() as int) =~= session.pending);
        },
    }
}

/// A call that connects queues events behind those that wait, like any other,
/// and passes over some from the front: what still waits is the rest, in order.
/// A call that first gives the final text queues it behind all else, and it is
/// the last completed transcript.
#[verifier::rlimit(40)]
#[verifier::spinoff_prover]
pub proof fn law_connecting_passes_over(session: Session, call: Call)
    requires
        connects(call),
    ensures
        session.pending.is_prefix_of(lined_up(session, call)),
        called(session, call).pending.is_suffix_of(lined_up(session, call)),
        called(session, call).final_emitted && !session.final_emitted ==> (called(
            session,
            call,
        ).completed_text matches Some(text) && lined_up(session, call).last() == Event::Final(
            text,
        )),
{
    assert(session.pending.subrange(0, session.pending.len() as int) =~= session.pending);
    match call {
        Call::Created(_, First::Message(message)) => {
            let middle = taken_in(session, message).pending;
            lemma_message_finals(session, message);
            assert(middle.subrange(0, middle.len() as int) =~= middle);
            assert(middle.subrange(0, session.pending.len() as int) =~= session.pending);
        },
        Call::Sent(_) => {
            let (next, step) = next_of(session);
            lemma_next_keeps(session);
            lemma_connect_next(next, step);
            lemma_next_suffix(session);
            lemma_connect_suffix(next, step);
            lemma_suffix(connect_next(next, step).0.pending, next.pending, session.pending);
        },
        Call::Updated(arrival) => {
            let (next, step) = next_after(session, arrival);
            lemma_arrived(session, arrival);
            lemma_arrived_suffix(session, arrival);
            lemma_connect_next(next, step);
            lemma_connect_suffix(next, step);
            lemma_suffix(
                connect_next(next, step).0.pending,
                next.pending,
                arrived(session, arrival).pending,
            );
        },
        _ => {},
    }
}

/// Whether the call brings this transcript.
pub open spec fn brings(call: Call, text: Seq<char>) -> bool {
    message_of(call) matches Some(message) && is_transcript(message) && transcript(message) == text
}

/// Whether one of the calls brought this transcript.
pub open spec fn was_received(calls: Seq<Call>, text: Seq<char>) -> bool {
    exists|i: int| 0 <= i < calls.len() && brings(#[trigger] calls[i], text)
}

/// The transcript that an event tells, if it does.
pub open spec fn told(event: Event) -> Option<Seq<char>> {
    match event {
        Event::Definite(text) | Event::Final(text) => Some(text),
        _ => None,
    }
}

/// Whether the events tell transcripts of these calls only.
spec fn all_received(calls: Seq<Call>, list: Seq<Event>) -> bool {
    forall|k: int|
        0 <= k < list.len() ==> (told(#[trigger] list[k]) matches Some(text) ==> was_received(
            calls,
            text,
        ))
}

/// Whether a session holds transcripts of these calls only.
spec fn holds_received(calls: Seq<Call>, session: Session) -> bool {
    &&& all_received(calls, session.pending)
    &&& session.completed_text matches Some(text) ==> was_received(calls, text)
}

/// Asking for the next event tells nothing new.
proof fn lemma_next_received(calls: Seq<Call>, session: Session)
    requires
        holds_received(calls, session),
    ensures
        holds_received(calls, next_of(session).0),
        all_received(calls, delivered(next_of(session).1)),
{
    if session.pending.len() > 0 {
        let rest = session.pending.drop_first();
        assert forall|k: int| 0 <= k < rest.len() implies (told(#[trigger] rest[k]) matches Some(
            text,
        ) ==> was_received(calls, text)) by {
            assert(rest[k] == session.pending[k + 1]);
        }
        assert(delivered(next_of(session).1)[0] == session.pending[0]);
    }
}

/// A message of these calls tells nothing that they did not bring.
proof fn lemma_message_received(calls: Seq<Call>, session: Session, message: Received)
    requires
        holds_received(calls, session),
        is_transcript(message) ==> was_received(calls, transcript(message)),
    ensures
        holds_received(calls, after_message(session, message)),
        all_received(calls, message_events(session, message)),
        holds_received(calls, taken_in(session, message)),
{
    lemma_types_apart();
    let more = message_events(session, message);
    let all = session.pending + more;
    assert forall|k: int| 0 <= k < all.len() implies (told(#[trigger] all[k]) matches Some(text)
        ==> was_received(calls, text)) by {
        if k < session.pending.len() {
            assert(all[k] == session.pending[k]);
        } else {
            assert(all[k] == more[k - session.pending.len()]);
        }
    }
}

/// The final text tells nothing new.
proof fn lemma_final_received(calls: Seq<Call>, session: Session)
    requires
        holds_received(calls, session),
    ensures
        holds_received(calls, with_final(session)),
{
}

/// An arrival tells nothing that the calls did not bring.
proof fn lemma_arrival_received(calls: Seq<Call>, session: Session, arrival: Arrival)
    requires
        holds_received(calls, session),
        message_in(arrival) matches Some(message) ==> (is_transcript(message) ==> was_received(
            calls,
            transcript(message),
        )),
    ensures
        holds_received(calls, next_after(session, arrival).0),
        all_received(calls, delivered(next_after(session, arrival).1)),
{
    match message_in(arrival) {
        Some(message) => {
            lemma_message_received(calls, session, message);
            lemma_next_received(calls, taken_in(session, message));
        },
        None => {
            lemma_final_received(calls, session);
            lemma_next_received(calls, session);
            lemma_next_received(calls, with_final(session));
        },
    }
}

/// Passing events over tells nothing new.
proof fn lemma_connect_received(calls: Seq<Call>, session: Session, next: Next)
    requires
        holds_received(calls, session),
    ensures
        holds_received(calls, connect_next(session, next).0),
{
    lemma_connect_next(session, next);
    lemma_connect_suffix(session, next);
    let end = connect_next(session, next).0.pending;
    let passed = session.pending.len() - end.len();
    assert forall|k: int| 0 <= k < end.len() implies (told(#[trigger] end[k]) matches Some(text)
        ==> was_received(calls, text)) by {
        assert(end[k] == session.pending[passed + k]);
    }
}

/// A call tells nothing that the calls did not bring.
proof fn lemma_call_received(calls: Seq<Call>, session: Session, call: Call)
    requires
        holds_received(calls, session),
        message_of(call) matches Some(message) ==> (is_transcript(message) ==> was_received(
            calls,
            transcript(message),
        )),
    ensures
        holds_received(calls, called(session, call)),
        all_received(calls, handed_out(session, call)),
{
    match call {
        Call::Next => {
            lemma_next_received(calls, session);
        },
        Call::Receive(arrival) => {
            lemma_arrival_received(calls, session, arrival);
        },
        Call::ReceiveMessage(Ok(message)) => {
            lemma_message_received(calls, session, message);
            lemma_next_received(calls, taken_in(session, message));
        },
        Call::Parse(message) => {
            lemma_message_received(calls, session, message);
        },
        Call::EndInput => {
            lemma_final_received(
                calls,
                Session { input_finished: true, carry: None, ..session },
            );
        },
        Call::Created(_, First::Message(message)) => {
            if message_type(message) == "session.created"@ {
                lemma_message_received(calls, session, message);
            }
        },
        Call::Sent(_) => {
            lemma_next_received(calls, session);
            lemma_connect_received(calls, next_of(session).0, next_of(session).1);
        },
        Call::Updated(arrival) => {
            lemma_arrival_received(calls, session, arrival);
            let (next, step) = next_after(session, arrival);
            lemma_connect_received(calls, next, step);
        },
        _ => {},
    }
}

/// What was received stays received.
proof fn lemma_received_grows(calls: Seq<Call>, text: Seq<char>)
    requires
        calls.len() > 0,
        was_received(calls.drop_last(), text),
    ensures
        was_received(calls, text),
{
    let shorter = calls.drop_last();
    let i = choose|i: int| 0 <= i < shorter.len() && brings(#[trigger] shorter[i], text);
    assert(brings(calls[i], text));
}

/// What all calls hand out and leave was brought by one of them.
proof fn lemma_all_received(calls: Seq<Call>)
    ensures
        all_received(calls, all_handed_out(fresh(), calls)),
        holds_received(calls, after_calls(fresh(), calls)),
    decreases calls.len(),
{
    if calls.len() > 0 {
        let shorter = calls.drop_last();
        let call = calls[calls.len() - 1];
        let session = after_calls(fresh(), shorter);
        let sooner = all_handed_out(fresh(), shorter);
        lemma_all_received(shorter);
        assert forall|text: Seq<char>| was_received(shorter, text) implies was_received(
            calls,
            text,
        ) by {
            lemma_received_grows(calls, text);
        }
        if let Some(message) = message_of(call) {
            if is_transcript(message) {
                assert(brings(calls[calls.len() - 1], transcript(message)));
            }
        }
        assert(holds_received(calls, session));
        lemma_call_received(calls, session, call);
        let now = handed_out(session, call);
        let all = sooner + now;
        assert forall|k: int| 0 <= k < all.len() implies (told(#[trigger] all[k]) matches Some(text)
            ==> was_received(calls, text)) by {
            if k < sooner.len() {
                assert(all[k] == sooner[k]);
            } else {
                assert(all[k] == now[k - sooner.len()]);
            }
        }
    }
}

/// From a fresh session on, whatever is called, connecting included, every final
/// text that is handed out or waits to be is a transcript that one of the calls
/// brought; and so is every definite one.
pub proof fn law_final_text_was_received(calls: Seq<Call>)
    ensures
        ({
            let list = all_handed_out(fresh(), calls) + after_calls(fresh(), calls).pending;
            &&& forall|k: int|
                0 <= k < list.len() ==> ((#[trigger] list[k]) matches Event::Final(text)
                    ==> was_received(calls, text))
            &&& forall|k: int|
                0 <= k < list.len() ==> ((#[trigger] list[k]) matches Event::Definite(text)
                    ==> was_received(calls, text))
        }),
{
    lemma_all_received(calls);
    let out = all_handed_out(fresh(), calls);
    let left = after_calls(fresh(), calls).pending;
    let list = out + left;
    assert forall|k: int| 0 <= k < list.len() implies (told(#[trigger] list[k]) matches Some(text)
        ==> was_received(calls, text)) by {
        if k < out.len() {
            assert(list[k] == out[k]);
        } else {
            assert(list[k] == left[k - out.len()]);
        }
    }
}

/// Whether a text is worth telling: it is not empty, and there is no white
/// space around it.
pub open spec fn is_tidy(text: Seq<char>) -> bool {
    &&& text.len() > 0
    &&& !is_white_space(text[0])
    &&& !is_white_space(text.last())
}

/// Whether an event, if it tells a transcript, tells a tidy one, and is not a
/// guess that may change.
pub open spec fn tells_tidily(event: Event) -> bool {
    match event {
        Event::Definite(text) | Event::Final(text) => is_tidy(text),
        Event::Interim(_) => false,
        _ => true,
    }
}

/// Whether all events tell tidy transcripts.
pub open spec fn all_tidy(list: Seq<Event>) -> bool {
    forall|i: int| 0 <= i < list.len() ==> tells_tidily(#[trigger] list[i])
}

/// Whether a session holds tidy transcripts only, and one where the final text
/// was given.
pub open spec fn holds_tidy_texts(session: Session) -> bool {
    &&& all_tidy(session.pending)
    &&& session.completed_text matches Some(text) ==> is_tidy(text)
    &&& session.final_emitted ==> session.completed_text is Some
}

/// Asking for the next event keeps the transcripts tidy.
proof fn lemma_next_tidy(session: Session)
    requires
        holds_tidy_texts(session),
    ensures
        holds_tidy_texts(next_of(session).0),
        all_tidy(delivered(next_of(session).1)),
{
    if session.pending.len() > 0 {
        assert(tells_tidily(session.pending[0]));
        assert forall|i: int| 0 <= i < session.pending.len() - 1 implies tells_tidily(
            #[trigger] session.pending.drop_first()[i],
        ) by {
            assert(tells_tidily(session.pending[i + 1]));
        }
    }
}

/// A message keeps the transcripts tidy.
proof fn lemma_message_tidy(session: Session, message: Received)
    requires
        holds_tidy_texts(session),
    ensures
        holds_tidy_texts(after_message(session, message)),
        holds_tidy_texts(taken_in(session, message)),
        all_tidy(message_events(session, message)),
{
    match message.transcript {
        Some(text) => lemma_trimmed(text),
        None => lemma_trimmed(Seq::empty()),
    }
}

/// Giving the final text keeps the transcripts tidy.
proof fn lemma_final_tidy(session: Session)
    requires
        holds_tidy_texts(session),
    ensures
        holds_tidy_texts(with_final(session)),
{
}

/// An arrival keeps the transcripts tidy.
proof fn lemma_arrival_tidy(session: Session, arrival: Arrival)
    requires
        holds_tidy_texts(session),
    ensures
        holds_tidy_texts(next_after(session, arrival).0),
        all_tidy(delivered(next_after(session, arrival).1)),
{
    match message_in(arrival) {
        Some(message) => {
            lemma_message_tidy(session, message);
            lemma_next_tidy(taken_in(session, message));
        },
        None => {
            lemma_final_tidy(session);
            lemma_next_tidy(session);
            lemma_next_tidy(with_final(session));
        },
    }
}

/// Passing events over keeps the transcripts tidy.
proof fn lemma_connect_tidy(session: Session, next: Next)
    requires
        holds_tidy_texts(session),
    ensures
        holds_tidy_texts(connect_next(session, next).0),
    decreases
            session.pending.len(),
            if next is Deliver {
                1int
            } else {
                0int
            },
{
    match next {
        Next::Deliver(Event::Interim(_))
        | Next::Deliver(Event::Definite(_))
        | Next::Deliver(Event::Final(_)) => {
            lemma_next_tidy(session);
            lemma_connect_tidy(next_of(session).0, next_of(session).1);
        },
        _ => {},
    }
}

/// Every call keeps the transcripts tidy.
proof fn lemma_call_tidy(session: Session, call: Call)
    requires
        holds_tidy_texts(session),
    ensures
        holds_tidy_texts(called(session, call)),
        all_tidy(handed_out(session, call)),
{
    match call {
        Call::Next => {
            lemma_next_tidy(session);
        },
        Call::Receive(arrival) => {
            lemma_arrival_tidy(session, arrival);
        },
        Call::ReceiveMessage(Ok(message)) => {
            lemma_message_tidy(session, message);
            lemma_next_tidy(taken_in(session, message));
        },
        Call::Parse(message) => {
            lemma_message_tidy(session, message);
        },
        Call::EndInput => {
            lemma_final_tidy(Session { input_finished: true, carry: None, ..session });
        },
        Call::Created(_, First::Message(message)) => {
            lemma_message_tidy(session, message);
        },
        Call::Sent(_) => {
            lemma_next_tidy(session);
            lemma_connect_tidy(next_of(session).0, next_of(session).1);
        },
        Call::Updated(arrival) => {
            lemma_arrival_tidy(session, arrival);
            let (next, step) = next_after(session, arrival);
            lemma_connect_tidy(next, step);
        },
        _ => {},
    }
}

/// From a fresh session on, whatever is called, every transcript that is handed
/// out or waits to be is tidy and definite, and the final text is given only
/// once a transcript was completed.
pub proof fn law_transcripts_are_tidy(calls: Seq<Call>)
    ensures
        all_tidy(all_handed_out(fresh(), calls)),
        holds_tidy_texts(after_calls(fresh(), calls)),
    decreases calls.len(),
{
    if calls.len() > 0 {
        law_transcripts_are_tidy(calls.drop_last());
        lemma_call_tidy(after_calls(fresh(), calls.drop_last()), calls.last());
    }
}

/// A call changes of a session only what it is for. The input, once it has
/// ended, stays ended; a socket is there until the session is closed; the sample
/// that waits is touched by audio alone; what was committed only by audio and by
/// the answer to a commit; and what was given as final stays given.
pub proof fn law_calls_touch_little(session: Session, call: Call)
    ensures
        ({
            let next = called(session, call);
            &&& session.input_finished ==> next.input_finished
            &&& call !is EndInput ==> next.input_finished == session.input_finished
            &&& call is EndInput ==> next.input_finished
            &&& call !is Close && !(call matches Call::Dialed(Dialed::Established))
                ==> next.connected == session.connected
            &&& call is Close ==> !next.connected
            &&& call !is Audio && call !is EndInput ==> next.carry == session.carry
            &&& call is EndInput && !session.input_finished ==> next.carry is None
            &&& session.final_emitted ==> next.final_emitted
            &&& message_of(call) is None && call !is Audio && call !is EndInput
                ==> next.pending_audio == session.pending_audio
            &&& message_of(call) is None ==> next.completed_text == session.completed_text
            &&& session.completed_text is Some ==> next.completed_text is Some
        }),
{
    lemma_call_finals(session, call);
    lemma_call_completed(session, call);
    match call {
        Call::Receive(arrival) => {
            lemma_arrived_suffix(session, arrival);
        },
        Call::Sent(_) => {
            lemma_connect_next(next_of(session).0, next_of(session).1);
        },
        Call::Updated(arrival) => {
            lemma_arrived_suffix(session, arrival);
            let (next, step) = next_after(session, arrival);
            lemma_connect_next(next, step);
        },
        _ => {},
    }
}

/// A new session has no socket, no events, no sample and no transcript; its
/// input goes on, nothing is to be committed, and no final text was given.
pub proof fn law_fresh_session_holds_nothing()
    ensures
        !fresh().connected,
        fresh().pending.len() == 0,
        fresh().carry is None,
        !fresh().input_finished,
        !fresh().pending_audio,
        !fresh().final_emitted,
        fresh().completed_text is None,
{
}

/// A frame is upsampled behind the sample that waits. What comes of it is to be
/// sent, if anything does, and then to be committed; nothing else changes.
pub proof fn law_frame_is_upsampled(session: Session, frame: Seq<u8>)
    ensures
        ({
            let out = upsampled(session.carry, frame);
            let (next, audio) = audio_taken(session, frame);
            &&& out.len() > 0 ==> audio == Some(out)
            &&& out.len() == 0 ==> audio is None
            &&& next == (Session {
                carry: carry_after(session.carry, frame),
                pending_audio: session.pending_audio || out.len() > 0,
                ..session
            })
        }),
{
    if frame.len() == 0 {
        assert(waiting(session.carry, frame) =~= carried(session.carry));
    }
}

/// Closing ends the use of the socket and gives the final text if it is owed,
/// behind what waits; nothing else changes.
pub proof fn law_closing(session: Session, text: Seq<char>)
    requires
        session.completed_text is Some ==> session.completed_text == Some(text),
    ensures
        called(session, Call::Close) == if owes_final(session) {
            Session {
                connected: false,
                pending: session.pending + seq![Event::Final(text)],
                final_emitted: true,
                ..session
            }
        } else {
            Session { connected: false, ..session }
        },
{
    law_owed_final_is_queued(session, text);
}

/// When the audio ends, the bytes of a sample that waits are sent twice and then
/// all is committed; without one, what was sent and not committed is committed;
/// and without that, nothing is sent, and the final text is given if it is owed.
pub proof fn law_end_of_input(session: Session, sample: i16, lo: u8, hi: u8, text: Seq<char>)
    requires
        is_sample(sample, lo, hi),
        session.carry is Some ==> session.carry == Some(sample),
        session.completed_text is Some ==> session.completed_text == Some(text),
    ensures
        ({
            let ended = Session { input_finished: true, carry: None, ..session };
            let (next, sent) = input_closed(session);
            if session.input_finished {
                &&& next == session
                &&& sent == Seq::<Audio>::empty()
            } else if session.carry is Some {
                &&& next == (Session { pending_audio: true, ..ended })
                &&& sent == seq![Audio::Append(seq![lo, hi, lo, hi]), Audio::Commit]
            } else if session.pending_audio {
                &&& next == ended
                &&& sent == seq![Audio::Commit]
            } else {
                &&& next == if owes_final(session) {
                    Session {
                        pending: session.pending + seq![Event::Final(text)],
                        final_emitted: true,
                        ..ended
                    }
                } else {
                    ended
                }
                &&& sent == Seq::<Audio>::empty()
            }
        }),
{
    law_last_sample_goes_out_twice(sample, lo, hi);
    law_owed_final_is_queued(Session { input_finished: true, carry: None, ..session }, text);
}

/// Ending the audio a second time does nothing.
pub proof fn law_input_ends_once(session: Session)
    ensures
        input_closed(input_closed(session).0) == (input_closed(session).0, Seq::<Audio>::empty()),
{
}

/// When the audio ends, what is left of it is sent and all that was not
/// committed is committed, in one message at the end; where there is none,
/// nothing is sent.
pub proof fn law_audio_is_committed(session: Session)
    requires
        !session.input_finished,
    ensures
        ({
            let sent = input_closed(session).1;
            &&& sent.len() > 0 <==> session.pending_audio || session.carry is Some
            &&& sent.len() > 0 ==> sent.last() is Commit
            &&& forall|i: int| 0 <= i < sent.len() - 1 ==> (#[trigger] sent[i]) is Append
        }),
{
}

/// Audio that was sent stays to be committed until the service says that it
/// was.
pub proof fn law_audio_stays_uncommitted(session: Session, call: Call)
    requires
        message_of(call) matches Some(message) ==> message_type(message)
            != "input_audio_buffer.committed"@,
    ensures
        session.pending_audio ==> called(session, call).pending_audio,
        call matches Call::Audio(frame) && audio_taken(session, frame).1 is Some ==> called(
            session,
            call,
        ).pending_audio,
{
    match call {
        Call::Sent(_) => {
            lemma_connect_next(next_of(session).0, next_of(session).1);
        },
        Call::Updated(arrival) => {
            let (next, step) = next_after(session, arrival);
            lemma_connect_next(next, step);
        },
        _ => {},
    }
}

/// The session after frames of audio.
pub open spec fn after_frames(session: Session, frames: Seq<Seq<u8>>) -> Session
    decreases frames.len(),
{
    if frames.len() == 0 {
        session
    } else {
        audio_taken(after_frames(session, frames.drop_last()), frames.last()).0
    }
}

/// All audio that is to be sent for frames of audio.
pub open spec fn audio_of_frames(session: Session, frames: Seq<Seq<u8>>) -> Seq<u8>
    decreases frames.len(),
{
    if frames.len() == 0 {
        Seq::empty()
    } else {
        audio_of_frames(session, frames.drop_last()) + match audio_taken(
            after_frames(session, frames.drop_last()),
            frames.last(),
        ).1 {
            Some(audio) => audio,
            None => Seq::empty(),
        }
    }
}

/// The audio in a list of messages.
pub open spec fn audio_in(messages: Seq<Audio>) -> Seq<u8>
    decreases messages.len(),
{
    if messages.len() == 0 {
        Seq::empty()
    } else {
        audio_in(messages.drop_last()) + match messages.last() {
            Audio::Append(audio) => audio,
            Audio::Commit => Seq::empty(),
        }
    }
}

/// Taking in frames upsamples them in turn, and touches nothing else but what
/// is to be committed.
proof fn lemma_frames_upsampled(session: Session, frames: Seq<Seq<u8>>)
    ensures
        after_frames(session, frames) == (Session {
            carry: carry_after_all(session.carry, frames),
            pending_audio: after_frames(session, frames).pending_audio,
            ..session
        }),
        audio_of_frames(session, frames) == upsampled_all(session.carry, frames),
    decreases frames.len(),
{
    if frames.len() > 0 {
        let shorter = frames.drop_last();
        lemma_frames_upsampled(session, shorter);
        let between = after_frames(session, shorter);
        let frame = frames.last();
        if frame.len() == 0 {
            assert(waiting(between.carry, frame) =~= carried(between.carry));
        }
        assert(audio_of_frames(session, frames) =~= upsampled_all(session.carry, frames));
    }
}

/// However the audio is cut into frames of whole samples, what is sent from the
/// first frame to the end is the whole audio, upsampled in one piece.
pub proof fn law_all_audio_is_sent(session: Session, frames: Seq<Seq<u8>>)
    requires
        !session.input_finished,
        forall|i: int| 0 <= i < frames.len() ==> (#[trigger] frames[i]).len() % 2 == 0,
    ensures
        audio_of_frames(session, frames) + audio_in(
            input_closed(after_frames(session, frames)).1,
        ) == upsampled(session.carry, whole(frames)) + flushed(
            carry_after(session.carry, whole(frames)),
        ),
{
    lemma_frames_upsampled(session, frames);
    law_frames_join(session.carry, frames);
    let ending = after_frames(session, frames);
    let sent = input_closed(ending).1;
    let rest = flushed(ending.carry);
    reveal_with_fuel(audio_in, 3);
    if sent.len() == 2 {
        assert(sent.drop_last() =~= seq![Audio::Append(rest)]);
        assert(seq![Audio::Append(rest)].drop_last() =~= Seq::empty());
    } else if sent.len() == 1 {
        assert(sent.drop_last() =~= Seq::empty());
    }
    assert(audio_in(sent) =~= rest);
}

/// The events that come of reading an ended socket `count` times.
pub open spec fn drained(session: Session, count: nat) -> (Session, Seq<Event>)
    decreases count,
{
    if count == 0 {
        (session, Seq::empty())
    } else {
        let (session, list) = drained(session, (count - 1) as nat);
        let (session, step) = next_after_close(session);
        (session, list + delivered(step))
    }
}

/// Reading an ended socket hands out everything that waits, then the final text
/// if one is due, and from then on only that the session is closed.
pub proof fn law_ended_socket_drains(session: Session, count: nat)
    ensures
        ({
            let due = with_final(session).pending;
            let (left, list) = drained(session, count);
            if count <= due.len() {
                &&& list == due.take(count as int)
                &&& count > 0 ==> left == (Session {
                    pending: due.skip(count as int),
                    ..with_final(session)
                })
            } else {
                &&& list == due + Seq::new((count - due.len()) as nat, |i: int| Event::Closed)
                &&& left == (Session { pending: Seq::empty(), ..with_final(session) })
            }
        }),
    decreases count,
{
    let ending = with_final(session);
    let due = ending.pending;
    let (left, list) = drained(session, count);
    if count == 0 {
        assert(list =~= due.take(0));
    } else {
        let (before, so_far) = drained(session, (count - 1) as nat);
        law_ended_socket_drains(session, (count - 1) as nat);
        if count == 1 {
            assert(with_final(before) == ending);
        } else {
            assert(with_final(before) == before);
        }
        let here = with_final(before);
        if count <= due.len() {
            assert(here.pending =~= due.skip(count - 1));
            assert(left.pending =~= due.skip(count as int));
            assert(list =~= due.take(count as int));
        } else {
            assert(here.pending.len() == 0);
            assert(due.take(due.len() as int) =~= due);
            assert(list =~= due + Seq::new((count - due.len()) as nat, |i: int| Event::Closed));
            assert(left.pending =~= Seq::empty());
        }
    }
}

/// The messages about audio hold the name, the type and the audio they were
/// made with.
pub proof fn law_audio_messages_hold(event_id: Seq<char>, audio: Seq<u8>)
    ensures
        audio_append(event_id, audio).text_member("event_id"@) == Some(event_id),
        audio_append(event_id, audio).text_member("type"@) == Some("input_audio_buffer.append"@),
        audio_append(event_id, audio).text_member("audio"@) == Some(base64_text(audio)),
        audio_commit(event_id).text_member("event_id"@) == Some(event_id),
        audio_commit(event_id).text_member("type"@) == Some("input_audio_buffer.commit"@),
        audio_commit(event_id).member("audio"@) is None,
{
    reveal_strlit("event_id");
    reveal_strlit("type");
    reveal_strlit("audio");
    assert("type"@.len() == 4 && "audio"@.len() == 5 && "event_id"@.len() == 8);
}

/// The value at the end of a path of keys.
pub open spec fn value_at(json: Json, path: Seq<Seq<char>>) -> Option<Json>
    decreases path.len(),
{
    if path.len() == 0 {
        Some(json)
    } else {
        match value_at(json, path.drop_last()) {
            Some(inner) => inner.member(path.last()),
            None => None,
        }
    }
}

/// The message that sets up a session holds the settings it was made with.
pub proof fn law_session_update_holds(model: Seq<char>, language: Seq<char>, prompt: Seq<char>)
    ensures
        ({
            let message = session_update(model, language, prompt);
            let input = seq!["session"@, "audio"@, "input"@];
            let transcription = input.push("transcription"@);
            let format = input.push("format"@);
            &&& value_at(message, seq!["type"@]) == Some(Json::Text("session.update"@))
            &&& value_at(message, seq!["session"@, "type"@]) == Some(Json::Text("transcription"@))
            &&& value_at(message, format.push("type"@)) == Some(Json::Text("audio/pcm"@))
            &&& value_at(message, format.push("rate"@)) == Some(
                Json::Integer(TARGET_SAMPLE_RATE_HZ as int),
            )
            &&& value_at(message, input.push("turn_detection"@)) == Some(Json::Null)
            &&& value_at(message, transcription.push("model"@)) == Some(Json::Text(model))
            &&& value_at(message, transcription.push("language"@)) == Some(Json::Text(language))
            &&& value_at(message, transcription.push("prompt"@)) == Some(Json::Text(prompt))
        }),
{
    reveal_strlit("type");
    reveal_strlit("session");
    reveal_strlit("audio");
    reveal_strlit("input");
    reveal_strlit("format");
    reveal_strlit("rate");
    reveal_strlit("turn_detection");
    reveal_strlit("transcription");
    reveal_strlit("model");
    reveal_strlit("language");
    reveal_strlit("prompt");
    assert("type"@[0] != "rate"@[0]);
    assert("type"@.len() == 4 && "session"@.len() == 7 && "audio"@.len() == 5);
    assert("format"@.len() == 6 && "turn_detection"@.len() == 14 && "transcription"@.len() == 13);
    assert("model"@.len() == 5 && "language"@.len() == 8 && "prompt"@.len() == 6);
    let message = session_update(model, language, prompt);
    let none: Seq<Seq<char>> = Seq::empty();
    let session = seq!["session"@];
    let audio = seq!["session"@, "audio"@];
    let input = seq!["session"@, "audio"@, "input"@];
    let transcription = input.push("transcription"@);
    let format = input.push("format"@);
    assert(session =~= none.push("session"@));
    assert(audio =~= session.push("audio"@));
    assert(input =~= audio.push("input"@));
    assert(seq!["type"@] =~= none.push("type"@));
    assert(seq!["session"@, "type"@] =~= session.push("type"@));
    lemma_value_at_push(message, none, "type"@);
    lemma_value_at_push(message, none, "session"@);
    lemma_value_at_push(message, session, "type"@);
    lemma_value_at_push(message, session, "audio"@);
    lemma_value_at_push(message, audio, "input"@);
    lemma_value_at_push(message, input, "format"@);
    lemma_value_at_push(message, input, "turn_detection"@);
    lemma_value_at_push(message, input, "transcription"@);
    lemma_value_at_push(message, format, "type"@);
    lemma_value_at_push(message, format, "rate"@);
    lemma_value_at_push(message, transcription, "model"@);
    lemma_value_at_push(message, transcription, "language"@);
    lemma_value_at_push(message, transcription, "prompt"@);
}

/// Whether the value at the end of a path is an object with these keys.
pub open spec fn has_keys(json: Json, path: Seq<Seq<char>>, keys: Set<Seq<char>>) -> bool {
    value_at(json, path) matches Some(Json::Object(members)) && members.dom() == keys
}

/// The objects in the message that sets up a session have no other members than
/// the settings.
proof fn lemma_session_update_keys(model: Seq<char>, language: Seq<char>, prompt: Seq<char>)
    ensures
        ({
            let message = session_update(model, language, prompt);
            let input = seq!["session"@, "audio"@, "input"@];
            &&& has_keys(message, Seq::empty(), set!["type"@, "session"@])
            &&& has_keys(message, seq!["session"@], set!["type"@, "audio"@])
            &&& has_keys(message, seq!["session"@, "audio"@], set!["input"@])
            &&& has_keys(message, input, set!["format"@, "turn_detection"@, "transcription"@])
            &&& has_keys(message, input.push("format"@), set!["type"@, "rate"@])
            &&& has_keys(
                message,
                input.push("transcription"@),
                set!["model"@, "language"@, "prompt"@],
            )
        }),
{
    reveal_strlit("type");
    reveal_strlit("session");
    reveal_strlit("audio");
    reveal_strlit("format");
    reveal_strlit("turn_detection");
    reveal_strlit("transcription");
    assert("type"@.len() == 4 && "session"@.len() == 7 && "audio"@.len() == 5);
    assert("format"@.len() == 6 && "turn_detection"@.len() == 14 && "transcription"@.len() == 13);
    let message = session_update(model, language, prompt);
    let none: Seq<Seq<char>> = Seq::empty();
    let session = seq!["session"@];
    let audio = seq!["session"@, "audio"@];
    let input = seq!["session"@, "audio"@, "input"@];
    assert(session =~= none.push("session"@));
    assert(audio =~= session.push("audio"@));
    assert(input =~= audio.push("input"@));
    lemma_value_at_push(message, none, "session"@);
    lemma_value_at_push(message, session, "audio"@);
    lemma_value_at_push(message, audio, "input"@);
    lemma_value_at_push(message, input, "format"@);
    lemma_value_at_push(message, input, "transcription"@);
    let at = |path: Seq<Seq<char>>| value_at(message, path)->Some_0->Object_0.dom();
    assert(at(none) =~= set!["type"@, "session"@]);
    assert(at(session) =~= set!["type"@, "audio"@]);
    assert(at(audio) =~= set!["input"@]);
    assert(at(input) =~= set!["format"@, "turn_detection"@, "transcription"@]);
    assert(at(input.push("format"@)) =~= set!["type"@, "rate"@]);
    assert(at(input.push("transcription"@)) =~= set!["model"@, "language"@, "prompt"@]);
}

/// A session is set up with the transcription model, the language and the prompt
/// that are set, each whatever the others are. Where no model is set, or an
/// empty one, there is a default; without a language it is Chinese, and without
/// a prompt the prompt is empty. Besides these the message says that audio comes
/// as PCM at 24 kHz and is to be transcribed, and nothing else.
pub proof fn law_session_is_set_up_as_set(config: AsrConfig)
    ensures
        ({
            let message = update_of(config);
            let input = seq!["session"@, "audio"@, "input"@];
            let format = input.push("format"@);
            let transcription = input.push("transcription"@);
            let model = value_at(message, transcription.push("model"@));
            let language = value_at(message, transcription.push("language"@));
            let prompt = value_at(message, transcription.push("prompt"@));
            &&& match config.transcription_model {
                Some(set) => if set@.len() > 0 {
                    model == Some(Json::Text(set@))
                } else {
                    model == Some(Json::Text("gpt-4o-mini-transcribe"@))
                },
                None => model == Some(Json::Text("gpt-4o-mini-transcribe"@)),
            }
            &&& match config.language {
                Some(set) => language == Some(Json::Text(set@)),
                None => language == Some(Json::Text("zh"@)),
            }
            &&& match config.prompt {
                Some(set) => prompt == Some(Json::Text(set@)),
                None => prompt == Some(Json::Text(Seq::empty())),
            }
            &&& value_at(message, seq!["type"@]) == Some(Json::Text("session.update"@))
            &&& value_at(message, seq!["session"@, "type"@]) == Some(Json::Text("transcription"@))
            &&& value_at(message, format.push("type"@)) == Some(Json::Text("audio/pcm"@))
            &&& value_at(message, format.push("rate"@)) == Some(Json::Integer(24000))
            &&& value_at(message, input.push("turn_detection"@)) == Some(Json::Null)
            &&& has_keys(message, Seq::empty(), set!["type"@, "session"@])
            &&& has_keys(message, seq!["session"@], set!["type"@, "audio"@])
            &&& has_keys(message, seq!["session"@, "audio"@], set!["input"@])
            &&& has_keys(message, input, set!["format"@, "turn_detection"@, "transcription"@])
            &&& has_keys(message, format, set!["type"@, "rate"@])
            &&& has_keys(message, transcription, set!["model"@, "language"@, "prompt"@])
        }),
{
    let model = session_model(config);
    let language = session_language(config);
    let prompt = session_prompt(config);
    law_session_update_holds(model, language, prompt);
    lemma_session_update_keys(model, language, prompt);
}

/// The name of an event is a random UUID behind `event_`.
pub proof fn law_event_names_are_random(id: Seq<char>)
    ensures
        is_event_id(id) <==> "event_"@.is_prefix_of(id) && is_random_uuid(id.skip(6)),
{
    reveal_strlit("event_");
    assert("event_"@.len() == 6);
    if is_event_id(id) {
        let uuid = choose|uuid: Seq<char>| is_random_uuid(uuid) && id == "event_"@ + uuid;
        assert(id.skip(6) =~= uuid);
        assert(id.subrange(0, 6) =~= "event_"@);
    }
    if "event_"@.is_prefix_of(id) && is_random_uuid(id.skip(6)) {
        assert(id =~= "event_"@ + id.skip(6));
    }
}

/// A text that is sent for audio is an object with the name of an event, which
/// is drawn at random behind `event_`, and its type; and if it appends, with the
/// audio in base64. It says nothing else.
pub proof fn law_sent_audio_says_what_it_is(text: Seq<char>, message: Audio)
    requires
        tells(text, message),
    ensures
        json_parse(text) matches Ok(Json::Object(members)) && {
            let json = Json::Object(members);
            &&& exists|uuid: Seq<char>| #[trigger]
                is_random_uuid(uuid) && has_text(json, "event_id"@, "event_"@ + uuid)
            &&& match message {
                Audio::Append(audio) => {
                    &&& has_text(json, "type"@, "input_audio_buffer.append"@)
                    &&& has_text(json, "audio"@, base64_text(audio))
                    &&& members.dom() == set!["event_id"@, "type"@, "audio"@]
                },
                Audio::Commit => {
                    &&& has_text(json, "type"@, "input_audio_buffer.commit"@)
                    &&& members.dom() == set!["event_id"@, "type"@]
                },
            }
        },
{
    let event_id = choose|event_id: Seq<char>|
        is_event_id(event_id) && json_parse(text) == Ok::<Json, Seq<char>>(
            #[trigger] audio_json(event_id, message),
        );
    reveal_strlit("event_id");
    reveal_strlit("type");
    reveal_strlit("audio");
    assert("type"@.len() == 4 && "audio"@.len() == 5 && "event_id"@.len() == 8);
    let uuid = choose|uuid: Seq<char>| is_random_uuid(uuid) && event_id == "event_"@ + uuid;
    let json = audio_json(event_id, message);
    assert(is_random_uuid(uuid) && has_text(json, "event_id"@, "event_"@ + uuid));
    match message {
        Audio::Append(_) => {
            assert(json->Object_0.dom() =~= set!["event_id"@, "type"@, "audio"@]);
        },
        Audio::Commit => {
            assert(json->Object_0.dom() =~= set!["event_id"@, "type"@]);
        },
    }
}

/// One key more.
proof fn lemma_value_at_push(json: Json, path: Seq<Seq<char>>, key: Seq<char>)
    ensures
        value_at(json, path.push(key)) == match value_at(json, path) {
            Some(inner) => inner.member(key),
            None => None,
        },
{
    assert(path.push(key).drop_last() =~= path);
}

/// What the steps of connecting are told.
pub enum ConnectInput {
    /// What became of the attempt to reach the service.
    Dialed(Dialed),
    /// What reading the first message came to.
    First(First),
    /// Whether the settings could not be sent.
    Sent(Option<Seq<char>>),
    /// What was read after that.
    Updated(Arrival),
}

/// Where connecting stands: nothing is known yet of the attempt, or this is to
/// be done next.
pub type ConnectState = (Session, Option<Connecting>);

/// One step of connecting. What does not fit where connecting stands is not
/// asked for, and changes nothing.
pub open spec fn connect_moved(
    config: AsrConfig,
    state: ConnectState,
    input: ConnectInput,
) -> ConnectState {
    let (session, at) = state;
    match (at, input) {
        (None, ConnectInput::Dialed(outcome)) => {
            let (session, step) = connect_dialed(session, outcome);
            (session, Some(step))
        },
        (Some(Connecting::ReadCreated), ConnectInput::First(first)) => {
            let (session, step) = connect_created(session, config, first);
            (session, Some(step))
        },
        (Some(Connecting::SendUpdate(_)), ConnectInput::Sent(failure)) => {
            let (session, step) = connect_sent(session, failure);
            (session, Some(step))
        },
        (Some(Connecting::ReadUpdated), ConnectInput::Updated(arrival)) => {
            let (session, step) = connect_updated(session, arrival);
            (session, Some(step))
        },
        _ => state,
    }
}

/// Connecting from the start.
pub open spec fn connect_run(config: AsrConfig, inputs: Seq<ConnectInput>) -> ConnectState
    decreases inputs.len(),
{
    if inputs.len() == 0 {
        (fresh(), None)
    } else {
        connect_moved(config, connect_run(config, inputs.drop_last()), inputs.last())
    }
}

/// Whether the first message greets the client.
pub open spec fn greets(input: ConnectInput) -> bool {
    input matches ConnectInput::First(First::Message(message)) && message_type(message)
        == "session.created"@
}

/// Whether the settings were sent.
pub open spec fn sends(input: ConnectInput) -> bool {
    input matches ConnectInput::Sent(None)
}

/// Whether the service says that the settings hold.
pub open spec fn confirms(input: ConnectInput) -> bool {
    input matches ConnectInput::Updated(arrival) && (message_in(arrival) matches Some(message)
        && message_type(message) == "session.updated"@)
}

/// Whether the service greeted the client, somewhere in the list.
pub open spec fn was_greeted(inputs: Seq<ConnectInput>) -> bool {
    exists|i: int| 0 <= i < inputs.len() && greets(#[trigger] inputs[i])
}

/// Whether the settings were sent after a greeting.
pub open spec fn was_set_up(inputs: Seq<ConnectInput>) -> bool {
    exists|k: int|
        0 <= k < inputs.len() && sends(#[trigger] inputs[k]) && was_greeted(inputs.take(k))
}

/// Whether the settings were confirmed after they were sent after a greeting.
pub open spec fn was_confirmed(inputs: Seq<ConnectInput>) -> bool {
    exists|j: int|
        0 <= j < inputs.len() && confirms(#[trigger] inputs[j]) && was_set_up(inputs.take(j))
}

/// How often the settings were sent.
pub open spec fn times_sent(config: AsrConfig, inputs: Seq<ConnectInput>) -> nat
    decreases inputs.len(),
{
    if inputs.len() == 0 {
        0
    } else {
        let shorter = inputs.drop_last();
        times_sent(config, shorter) + if (connect_run(config, shorter).1 matches Some(
            Connecting::SendUpdate(_),
        )) && sends(inputs.last()) {
            1nat
        } else {
            0
        }
    }
}

/// Whether no audio was taken in yet.
pub open spec fn before_audio(session: Session) -> bool {
    &&& session.carry is None
    &&& !session.input_finished
    &&& !session.pending_audio
}

/// What has to have happened where connecting stands.
spec fn well_connected(
    config: AsrConfig,
    inputs: Seq<ConnectInput>,
    state: ConnectState,
) -> bool {
    let (session, at) = state;
    let open = Session { connected: true, ..fresh() };
    match at {
        None => session == fresh() && times_sent(config, inputs) == 0,
        Some(Connecting::ReadCreated) => session == open && times_sent(config, inputs) == 0,
        Some(Connecting::SendUpdate(sent)) => {
            &&& session.connected
            &&& session.pending.len() == 0
            &&& before_audio(session)
            &&& sent == Ok::<Json, Seq<char>>(update_of(config))
            &&& was_greeted(inputs)
            &&& times_sent(config, inputs) == 0
        },
        Some(Connecting::ReadUpdated) => {
            &&& session.connected
            &&& session.pending.len() == 0
            &&& before_audio(session)
            &&& was_set_up(inputs)
            &&& times_sent(config, inputs) == 1
        },
        Some(Connecting::Connected) => {
            &&& session.connected
            &&& session.pending.len() == 0
            &&& before_audio(session)
            &&& was_confirmed(inputs)
            &&& times_sent(config, inputs) == 1
        },
        Some(Connecting::Failed(_)) => true,
    }
}

/// What was the case stays the case.
proof fn lemma_inputs_grow(inputs: Seq<ConnectInput>)
    requires
        inputs.len() > 0,
    ensures
        was_greeted(inputs.drop_last()) ==> was_greeted(inputs),
        was_set_up(inputs.drop_last()) ==> was_set_up(inputs),
        was_confirmed(inputs.drop_last()) ==> was_confirmed(inputs),
        greets(inputs.last()) ==> was_greeted(inputs),
        sends(inputs.last()) && was_greeted(inputs.drop_last()) ==> was_set_up(inputs),
        confirms(inputs.last()) && was_set_up(inputs.drop_last()) ==> was_confirmed(inputs),
{
    let shorter = inputs.drop_last();
    let end = inputs.len() - 1;
    assert(inputs.take(end) =~= shorter);
    assert(inputs[end] == inputs.last());
    if was_greeted(shorter) {
        let i = choose|i: int| 0 <= i < shorter.len() && greets(#[trigger] shorter[i]);
        assert(greets(inputs[i]));
    }
    if was_set_up(shorter) {
        let k = choose|k: int|
            0 <= k < shorter.len() && sends(#[trigger] shorter[k]) && was_greeted(shorter.take(k));
        assert(shorter.take(k) =~= inputs.take(k));
        assert(sends(inputs[k]));
    }
    if was_confirmed(shorter) {
        let j = choose|j: int|
            0 <= j < shorter.len() && confirms(#[trigger] shorter[j]) && was_set_up(
                shorter.take(j),
            );
        assert(shorter.take(j) =~= inputs.take(j));
        assert(confirms(inputs[j]));
    }
}

/// Reading for the answer to the settings, with nothing waiting: it is there
/// only if this arrival confirms them; and where it is there or more is to be
/// read, nothing waits again.
proof fn lemma_connect_updated(session: Session, arrival: Arrival)
    requires
        session.connected,
        session.pending.len() == 0,
    ensures
        ({
            let (next, step) = connect_updated(session, arrival);
            &&& step is Connected <==> confirms(ConnectInput::Updated(arrival))
            &&& step is ReadUpdated || step is Connected ==> next.connected && next.pending.len()
                == 0
            &&& before_audio(session) ==> before_audio(next)
            &&& step is Connected || step is ReadUpdated || step is Failed
        }),
{
    reveal_with_fuel(connect_next, 4);
    lemma_types_apart();
    match message_in(arrival) {
        Some(message) => {
            let middle = taken_in(session, message);
            assert(middle.pending =~= message_events(session, message));
        },
        None => {},
    }
}

/// Connecting keeps what has to have happened.
proof fn lemma_connect_run(config: AsrConfig, inputs: Seq<ConnectInput>)
    ensures
        well_connected(config, inputs, connect_run(config, inputs)),
    decreases inputs.len(),
{
    if inputs.len() > 0 {
        let shorter = inputs.drop_last();
        lemma_connect_run(config, shorter);
        lemma_inputs_grow(inputs);
        let (session, at) = connect_run(config, shorter);
        match (at, inputs.last()) {
            (Some(Connecting::ReadCreated), ConnectInput::First(First::Message(message))) => {
                lemma_types_apart();
                if message_type(message) == "session.created"@ {
                    assert(message_events(session, message) =~= Seq::empty());
                    assert(taken_in(session, message).pending =~= Seq::empty());
                }
            },
            (Some(Connecting::SendUpdate(_)), ConnectInput::Sent(_)) => {
                reveal_with_fuel(connect_next, 2);
            },
            (Some(Connecting::ReadUpdated), ConnectInput::Updated(arrival)) => {
                lemma_connect_updated(session, arrival);
            },
            _ => {},
        }
    }
}

/// A session is connected only after the service greeted the client, the
/// settings were sent, and the service confirmed them, in this order. What is
/// sent are the settings, and they are sent once. Then there is a socket, no
/// event waits, and no audio was taken in yet.
pub proof fn law_connected_in_order(config: AsrConfig, inputs: Seq<ConnectInput>)
    ensures
        connect_run(config, inputs).1 == Some(Connecting::Connected) ==> {
            let session = connect_run(config, inputs).0;
            &&& was_confirmed(inputs)
            &&& times_sent(config, inputs) == 1
            &&& session.connected
            &&& session.pending.len() == 0
            &&& session.carry is None
            &&& !session.input_finished
            &&& !session.pending_audio
        },
        connect_run(config, inputs).1 matches Some(Connecting::SendUpdate(sent)) ==> {
            &&& was_greeted(inputs)
            &&& sent == Ok::<Json, Seq<char>>(update_of(config))
        },
{
    lemma_connect_run(config, inputs);
}

/// Once the service is reached, greets the client, is sent the settings and
/// confirms them, the session is connected.
pub proof fn law_connecting_succeeds(config: AsrConfig, greeting: Received, answer: Arrival)
    requires
        message_type(greeting) == "session.created"@,
        message_in(answer) matches Some(message) && message_type(message) == "session.updated"@,
    ensures
        connect_run(
            config,
            seq![
                ConnectInput::Dialed(Dialed::Established),
                ConnectInput::First(First::Message(greeting)),
                ConnectInput::Sent(None),
                ConnectInput::Updated(answer),
            ],
        ).1 == Some(Connecting::Connected),
{
    let none: Seq<ConnectInput> = Seq::empty();
    let one = none.push(ConnectInput::Dialed(Dialed::Established));
    let two = one.push(ConnectInput::First(First::Message(greeting)));
    let three = two.push(ConnectInput::Sent(None));
    let four = three.push(ConnectInput::Updated(answer));
    assert(one.drop_last() =~= none);
    assert(two.drop_last() =~= one);
    assert(three.drop_last() =~= two);
    assert(four.drop_last() =~= three);
    lemma_connect_run(config, two);
    lemma_connect_run(config, three);
    reveal_with_fuel(connect_next, 2);
    assert(connect_run(config, none) == (fresh(), None::<Connecting>));
    assert(connect_run(config, one).1 == Some(Connecting::ReadCreated));
    assert(connect_run(config, two).1 == Some(
        Connecting::SendUpdate(Ok::<Json, Seq<char>>(update_of(config))),
    ));
    assert(connect_run(config, three).1 == Some(Connecting::ReadUpdated));
    lemma_connect_updated(connect_run(config, three).0, answer);
    assert(seq![
        ConnectInput::Dialed(Dialed::Established),
        ConnectInput::First(First::Message(greeting)),
        ConnectInput::Sent(None),
        ConnectInput::Updated(answer),
    ] =~= four);
}

} // verus!
