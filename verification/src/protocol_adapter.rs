//! Boundary where validated Game Protocol 1 messages become session events.
use crate::actions::ObjectHandle;
use crate::session::{
    Entity, EntityView, Event, EventView, RevisionedEvent, RevisionedEventView, SessionError,
};
use vstd::prelude::*;

verus! {

/// Identifier of the wire contract this adapter accepts.
pub const PROTOCOL_CONTRACT: &'static str = "game-protocol-1";
/// Largest accepted wire payload, in bytes (one mebibyte).
pub const MAX_WIRE_BYTES: usize = 1048576;

/// A message the protocol layer has already validated.
#[derive(Clone, Debug, PartialEq, Eq)]
pub enum ValidatedMessage {
    Connected,
    EnteredWorld,
    MapReset { map_generation: u64 },
    Entity {
        object_id: u64,
        object_generation: u32,
        map_generation: u64,
        x: i32,
        y: i32,
        name: String,
    },
    Message(String),
    Disconnected,
}

/// A validated message with its framing metadata.
#[derive(Clone, Debug, PartialEq, Eq)]
pub struct Envelope {
    pub revision: u64,
    pub session_generation: u64,
    pub payload_bytes: usize,
    pub message: ValidatedMessage,
}

/// The session event an envelope stands for, or why it never reaches the session.
pub open spec fn spec_into_domain(envelope: Envelope) -> Result<RevisionedEventView, SessionError> {
    if envelope.payload_bytes > MAX_WIRE_BYTES || envelope.revision == 0
        || envelope.session_generation == 0 {
        Err(SessionError::InvalidValue)
    } else {
        let event = match envelope.message {
            ValidatedMessage::Connected => EventView::Connected,
            ValidatedMessage::EnteredWorld => EventView::EnteredWorld,
            ValidatedMessage::MapReset { map_generation } => EventView::MapReset { map_generation },
            ValidatedMessage::Entity { object_id, object_generation, map_generation, x, y, name } =>
            EventView::EntityUpsert(
                EntityView {
                    handle: ObjectHandle {
                        session_generation: envelope.session_generation,
                        map_generation,
                        object_id,
                        object_generation,
                    },
                    x,
                    y,
                    name: name@,
                },
            ),
            ValidatedMessage::Message(value) => EventView::Message(value@),
            ValidatedMessage::Disconnected => EventView::Disconnected,
        };
        Ok(
            RevisionedEventView {
                revision: envelope.revision,
                session_generation: envelope.session_generation,
                event,
            },
        )
    }
}

/// Converts a validated envelope into a revisioned session event; oversized
/// payloads and zero revisions or generations are rejected.
pub fn into_domain(envelope: Envelope) -> (result: Result<RevisionedEvent, SessionError>)
    ensures
        match spec_into_domain(envelope) {
            Ok(event) => result is Ok && result->Ok_0@ == event,
            Err(error) => result == Err::<RevisionedEvent, SessionError>(error),
        },
{
    if envelope.payload_bytes > MAX_WIRE_BYTES || envelope.revision == 0
        || envelope.session_generation == 0 {
        return Err(SessionError::InvalidValue);
    }
    let session_generation = envelope.session_generation;
    let event = match envelope.message {
        ValidatedMessage::Connected => Event::Connected,
        ValidatedMessage::EnteredWorld => Event::EnteredWorld,
        ValidatedMessage::MapReset { map_generation } => Event::MapReset { map_generation },
        ValidatedMessage::Entity { object_id, object_generation, map_generation, x, y, name } =>
        Event::EntityUpsert(
            Entity {
                handle: ObjectHandle {
                    session_generation,
                    map_generation,
                    object_id,
                    object_generation,
                },
                x,
                y,
                name,
            },
        ),
        ValidatedMessage::Message(value) => Event::Message(value),
        ValidatedMessage::Disconnected => Event::Disconnected,
    };
    Ok(RevisionedEvent { revision: envelope.revision, session_generation, event })
}

} // verus!
