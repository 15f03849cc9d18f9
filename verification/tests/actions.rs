use atrinik_client::actions::{
    navigation_action, Action, ActionError, ActionQueue, ActionRequest, Direction, ObjectHandle,
    SemanticInput,
};

#[test]
fn keyboard_and_controller_navigation_share_actions() {
    let keyboard = navigation_action(SemanticInput::Navigate(Direction::North));
    let controller = navigation_action(SemanticInput::Navigate(Direction::North));
    assert_eq!(keyboard, controller);
}

#[test]
fn queue_is_bounded_and_clearable() {
    let mut queue = ActionQueue::new(1).expect("valid capacity");
    let request = ActionRequest {
        id: 1,
        action: Action::Stop,
    };
    queue.push(request.clone()).expect("first request");
    assert_eq!(queue.push(request), Err(ActionError::Full));
    queue.clear();
    assert!(queue.is_empty());
}

#[test]
fn navigation_maps_cancel_to_stop_and_ignores_activation_and_text() {
    assert_eq!(
        navigation_action(SemanticInput::Navigate(Direction::West)),
        Some(Action::Move(Direction::West))
    );
    assert_eq!(navigation_action(SemanticInput::Cancel), Some(Action::Stop));
    assert_eq!(navigation_action(SemanticInput::Activate), None);
    assert_eq!(navigation_action(SemanticInput::Text), None);
}

#[test]
fn queue_capacity_bounds_and_zero_correlation_are_rejected() {
    assert_eq!(ActionQueue::new(0).err(), Some(ActionError::InvalidCapacity));
    assert_eq!(ActionQueue::new(4_097).err(), Some(ActionError::InvalidCapacity));
    let mut queue = ActionQueue::new(4_096).expect("largest capacity");
    assert_eq!(
        queue.push(ActionRequest {
            id: 0,
            action: Action::Stop
        }),
        Err(ActionError::InvalidCorrelation)
    );
    assert_eq!(queue.len(), 0);
    assert_eq!(ActionError::Full.message(), "action queue is full");
}

#[test]
fn queue_releases_requests_first_in_first_out() {
    let mut queue = ActionQueue::new(3).expect("capacity");
    let handle = ObjectHandle {
        session_generation: 1,
        map_generation: 1,
        object_id: 5,
        object_generation: 1,
    };
    let first = ActionRequest {
        id: 1,
        action: Action::Attack(handle),
    };
    let second = ActionRequest {
        id: 2,
        action: Action::Move(Direction::South),
    };
    queue.push(first.clone()).expect("first");
    queue.push(second.clone()).expect("second");
    assert_eq!(queue.len(), 2);
    assert_eq!(queue.pop(), Some(first));
    assert_eq!(queue.pop(), Some(second));
    assert_eq!(queue.pop(), None);
}
