//! Assembly of outbound messages and their wire frames.
//!
//! Every outbound unit is a [`MessageToHost`]: a result or event body with
//! its extra segments, or a data-event body. A single writer task owns the
//! stream and drains a queue of these messages; the functions here build the
//! messages and render each one's exact wire frame.

use vstd::prelude::*;

use crate::codec::{
    data_event_frame, encode_data_event, encode_result_or_event, result_or_event_frame,
};
use crate::messages::{
    data_event_json, encode_data_event_body, encode_event, encode_result_with_id, event_json,
    result_with_id_json, DataEvent, EventMessage, ResultMessage,
};

verus! {

/// One outbound unit: a result or event (a JSON body plus raw extra
/// segments), or a data event (a JSON body alone).
pub enum MessageToHost {
    ResultOrEvent { body: Vec<u8>, extras: Vec<Vec<u8>> },
    DataEvent { body: Vec<u8> },
}

/// The wire frame of one outbound message.
pub open spec fn message_frame(m: MessageToHost) -> Seq<u8> {
    match m {
        MessageToHost::ResultOrEvent { body, extras } => result_or_event_frame(
            body@,
            extras.deep_view(),
        ),
        MessageToHost::DataEvent { body } => data_event_frame(body@),
    }
}

/// Builds the outbound message for the result of command `id`, carrying the
/// given extra segments.
pub fn result_message(id: &str, result: &ResultMessage, extras: Vec<Vec<u8>>) -> (m: MessageToHost)
    ensures
        m matches MessageToHost::ResultOrEvent { body, extras: e } && body@ == result_with_id_json(
            id@,
            *result,
        ) && e == extras,
{
    let body = encode_result_with_id(id, result);
    MessageToHost::ResultOrEvent { body, extras }
}

/// Builds the outbound message for an event, carrying the given extra
/// segments.
pub fn event_message(event: &EventMessage, extras: Vec<Vec<u8>>) -> (m: MessageToHost)
    ensures
        m matches MessageToHost::ResultOrEvent { body, extras: e } && body@ == event_json(*event)
            && e == extras,
{
    let body = encode_event(event);
    MessageToHost::ResultOrEvent { body, extras }
}

/// Builds the outbound message for a data event.
pub fn data_event_message(event: &DataEvent) -> (m: MessageToHost)
    ensures
        m matches MessageToHost::DataEvent { body } && body@ == data_event_json(*event),
{
    let body = encode_data_event_body(event);
    MessageToHost::DataEvent { body }
}

/// Renders the wire frame of one outbound message.
pub fn encode_message(m: &MessageToHost) -> (r: Vec<u8>)
    requires
        m matches MessageToHost::ResultOrEvent { extras, .. } ==> extras@.len() <= u32::MAX,
    ensures
        r@ == message_frame(*m),
{
    match m {
        MessageToHost::ResultOrEvent { body, extras } => encode_result_or_event(body, extras),
        MessageToHost::DataEvent { body } => encode_data_event(body),
    }
}

} // verus!
