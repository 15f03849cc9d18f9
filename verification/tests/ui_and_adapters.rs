use atrinik_client::actions::{Action, ActionRequest, Direction, ObjectHandle};
use atrinik_client::protocol_adapter::{into_domain, Envelope, ValidatedMessage, MAX_WIRE_BYTES};
use atrinik_client::scene::{frame, FrameEntity};
use atrinik_client::session::{
    Entity, Event, Phase, Player, RevisionedEvent, Session, SessionError, Snapshot,
};
use atrinik_client::testkit::{replay, RecordingSink};
use atrinik_client::ui_model::{model, navigation};

#[test]
fn ui_reads_a_copy_and_emits_semantic_actions() {
    let snapshot = Snapshot {
        revision: 1,
        session_generation: 1,
        map_generation: 1,
        phase: Phase::Playing,
        player: Player {
            health: 4,
            health_max: 5,
            movement: None,
            target: None,
        },
        entities: vec![],
        inventory: vec![],
        dialog: String::new(),
        quest: String::new(),
        messages: vec!["safe".into()],
        pending_action_ids: vec![],
    };
    assert_eq!(model(&snapshot).health_label, "4 / 5");
    assert_eq!(navigation(Direction::East), Action::Move(Direction::East));
}

#[test]
fn oversized_envelopes_never_reach_session() {
    let envelope = Envelope {
        revision: 1,
        session_generation: 1,
        payload_bytes: MAX_WIRE_BYTES + 1,
        message: ValidatedMessage::Connected,
    };
    assert_eq!(into_domain(envelope), Err(SessionError::InvalidValue));
}

#[test]
fn envelope_at_the_wire_limit_becomes_a_revisioned_event() {
    let envelope = Envelope {
        revision: 3,
        session_generation: 2,
        payload_bytes: MAX_WIRE_BYTES,
        message: ValidatedMessage::MapReset { map_generation: 7 },
    };
    assert_eq!(
        into_domain(envelope),
        Ok(RevisionedEvent {
            revision: 3,
            session_generation: 2,
            event: Event::MapReset { map_generation: 7 },
        })
    );
}

#[test]
fn ui_model_reports_phase_and_message_count() {
    let snapshot = Snapshot {
        revision: 4,
        session_generation: 1,
        map_generation: 1,
        phase: Phase::Connected,
        player: Player {
            health: 0,
            health_max: 10,
            movement: None,
            target: None,
        },
        entities: vec![],
        inventory: vec![],
        dialog: String::new(),
        quest: String::new(),
        messages: vec!["one".into(), "two".into()],
        pending_action_ids: vec![],
    };
    let ui = model(&snapshot);
    assert!(ui.connected);
    assert!(!ui.playing);
    assert_eq!(ui.health_label, "0 / 10");
    assert_eq!(ui.message_count, 2);
}

#[test]
fn frame_copies_entities_in_order() {
    let handle = ObjectHandle {
        session_generation: 1,
        map_generation: 3,
        object_id: 12,
        object_generation: 2,
    };
    let snapshot = Snapshot {
        revision: 9,
        session_generation: 1,
        map_generation: 3,
        phase: Phase::Playing,
        player: Player {
            health: 1,
            health_max: 1,
            movement: None,
            target: None,
        },
        entities: vec![Entity {
            handle,
            x: -4,
            y: 6,
            name: "entity".into(),
        }],
        inventory: vec![],
        dialog: String::new(),
        quest: String::new(),
        messages: vec![],
        pending_action_ids: vec![],
    };
    let input = frame(&snapshot);
    assert_eq!(input.session_revision, 9);
    assert_eq!(input.map_generation, 3);
    assert_eq!(
        input.entities,
        vec![FrameEntity {
            stable_id: 12,
            generation: 2,
            x: -4,
            y: 6
        }]
    );
}

#[test]
fn replay_reaches_the_same_state_as_reducing_and_stops_at_a_gap() {
    let events = vec![
        RevisionedEvent {
            revision: 1,
            session_generation: 1,
            event: Event::Connected,
        },
        RevisionedEvent {
            revision: 2,
            session_generation: 1,
            event: Event::Message("hello".into()),
        },
    ];
    let snapshot = replay(events).expect("replay");
    assert_eq!(snapshot.phase, Phase::Connected);
    assert_eq!(snapshot.messages, ["hello"]);
    let gap = vec![RevisionedEvent {
        revision: 2,
        session_generation: 1,
        event: Event::Connected,
    }];
    assert_eq!(replay(gap), Err(SessionError::RevisionGap));
}

#[test]
fn recording_sink_records_or_rejects() {
    let mut session = Session::default();
    session
        .reduce(RevisionedEvent {
            revision: 1,
            session_generation: 1,
            event: Event::Connected,
        })
        .expect("connected");
    session
        .reduce(RevisionedEvent {
            revision: 2,
            session_generation: 1,
            event: Event::EnteredWorld,
        })
        .expect("entered");
    let mut sink = RecordingSink::default();
    let request = ActionRequest {
        id: 3,
        action: Action::Stop,
    };
    session.dispatch(request, &mut sink).expect("accepted");
    assert_eq!(sink.requests, vec![request]);
    let mut rejecting = RecordingSink {
        requests: vec![],
        reject: true,
    };
    assert_eq!(
        session.dispatch(
            ActionRequest {
                id: 4,
                action: Action::Stop
            },
            &mut rejecting
        ),
        Err(SessionError::TransportRejected)
    );
    assert!(rejecting.requests.is_empty());
}
