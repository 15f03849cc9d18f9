//! Renderer-, protocol-, platform-, and transport-independent player intent.
use std::collections::VecDeque;
use vstd::prelude::*;

verus! {

/// Largest capacity an action queue may be created with.
pub const MAXIMUM_QUEUE_CAPACITY: usize = 4096;

/// A direction in authoritative grid space.
#[derive(Clone, Copy, Debug, PartialEq, Eq, Structural)]
pub enum Direction {
    North,
    East,
    South,
    West,
}

/// A generational reference supplied by an immutable session view.
#[derive(Clone, Copy, Debug, PartialEq, Eq, Structural)]
pub struct ObjectHandle {
    pub session_generation: u64,
    pub map_generation: u64,
    pub object_id: u64,
    pub object_generation: u32,
}

/// The complete semantic-action vocabulary.
#[derive(Clone, Copy, Debug, PartialEq, Eq, Structural)]
pub enum Action {
    Move(Direction),
    Stop,
    Target(ObjectHandle),
    Attack(ObjectHandle),
    Cast { spell_id: u32, target: Option<ObjectHandle> },
    Apply(ObjectHandle),
    Get(ObjectHandle),
    Drop { item: ObjectHandle, quantity: u32 },
    Talk(ObjectHandle),
    Reply { choice_id: u32 },
    SelectCharacter { character_id: u64 },
}

/// Input normalized before product behavior sees a device.
#[derive(Clone, Copy, Debug, PartialEq, Eq, Structural)]
pub enum SemanticInput {
    Navigate(Direction),
    Activate,
    Cancel,
    Text,
}

/// The shared action that a semantic input stands for, if any.
pub open spec fn spec_navigation_action(input: SemanticInput) -> Option<Action> {
    match input {
        SemanticInput::Navigate(direction) => Some(Action::Move(direction)),
        SemanticInput::Cancel => Some(Action::Stop),
        SemanticInput::Activate | SemanticInput::Text => None,
    }
}

/// Converts device-independent navigation into the shared action route.
pub fn navigation_action(input: SemanticInput) -> (action: Option<Action>)
    ensures
        action == spec_navigation_action(input),
{
    match input {
        SemanticInput::Navigate(direction) => Some(Action::Move(direction)),
        SemanticInput::Cancel => Some(Action::Stop),
        SemanticInput::Activate | SemanticInput::Text => None,
    }
}

/// An action paired with a correlation identifier.
#[derive(Clone, Copy, Debug, PartialEq, Eq, Structural)]
pub struct ActionRequest {
    pub id: u64,
    pub action: Action,
}

/// A typed local action rejection. It never claims authoritative failure.
#[derive(Clone, Copy, Debug, PartialEq, Eq, Structural)]
pub enum ActionError {
    InvalidCapacity,
    Full,
    InvalidCorrelation,
}

impl ActionError {
    /// Human-readable description of the rejection.
    pub fn message(&self) -> (text: &'static str)
        ensures
            text == action_error_message(*self),
    {
        match self {
            ActionError::InvalidCapacity => "action queue capacity is outside supported bounds",
            ActionError::Full => "action queue is full",
            ActionError::InvalidCorrelation => "action correlation identifier is zero",
        }
    }
}

/// The fixed human-readable description of each rejection.
pub open spec fn action_error_message(error: ActionError) -> &'static str {
    match error {
        ActionError::InvalidCapacity => "action queue capacity is outside supported bounds",
        ActionError::Full => "action queue is full",
        ActionError::InvalidCorrelation => "action correlation identifier is zero",
    }
}

/// Abstract state of an action queue: its bound and its pending requests, oldest first.
pub struct ActionQueueView {
    pub capacity: nat,
    pub requests: Seq<ActionRequest>,
}

/// A bounded non-blocking action queue.
#[derive(Debug)]
pub struct ActionQueue {
    capacity: usize,
    requests: VecDeque<ActionRequest>,
}

impl View for ActionQueue {
    type V = ActionQueueView;

    closed spec fn view(&self) -> ActionQueueView {
        ActionQueueView { capacity: self.capacity as nat, requests: self.requests@ }
    }
}

impl ActionQueue {
    #[verifier::type_invariant]
    closed spec fn bounded(self) -> bool {
        &&& 1 <= self.capacity <= MAXIMUM_QUEUE_CAPACITY
        &&& self.requests@.len() <= self.capacity
    }

    /// Creates a queue bounded to at most 4,096 requests.
    pub fn new(capacity: usize) -> (result: Result<ActionQueue, ActionError>)
        ensures
            match result {
                Ok(queue) => 1 <= capacity <= MAXIMUM_QUEUE_CAPACITY && queue@.capacity
                    == capacity && queue@.requests == Seq::<ActionRequest>::empty(),
                Err(error) => !(1 <= capacity <= MAXIMUM_QUEUE_CAPACITY) && error
                    == ActionError::InvalidCapacity,
            },
    {
        if !(1 <= capacity && capacity <= MAXIMUM_QUEUE_CAPACITY) {
            return Err(ActionError::InvalidCapacity);
        }
        Ok(ActionQueue { capacity, requests: VecDeque::new() })
    }

    /// Enqueues without blocking or dropping older intent.
    pub fn push(&mut self, request: ActionRequest) -> (result: Result<(), ActionError>)
        ensures
            final(self)@.capacity == old(self)@.capacity,
            request.id == 0 ==> result == Err::<(), ActionError>(ActionError::InvalidCorrelation)
                && final(self)@.requests == old(self)@.requests,
            request.id != 0 && old(self)@.requests.len() == old(self)@.capacity ==> result == Err::<
                (),
                ActionError,
            >(ActionError::Full) && final(self)@.requests == old(self)@.requests,
            request.id != 0 && old(self)@.requests.len() < old(self)@.capacity ==> result == Ok::<
                (),
                ActionError,
            >(()) && final(self)@.requests == old(self)@.requests.push(request),
    {
        proof {
            use_type_invariant(&*self);
        }
        if request.id == 0 {
            return Err(ActionError::InvalidCorrelation);
        }
        if self.requests.len() == self.capacity {
            return Err(ActionError::Full);
        }
        let mut requests = VecDeque::new();
        std::mem::swap(&mut requests, &mut self.requests);
        requests.push_back(request);
        std::mem::swap(&mut requests, &mut self.requests);
        Ok(())
    }

    /// Removes the oldest request.
    pub fn pop(&mut self) -> (oldest: Option<ActionRequest>)
        ensures
            final(self)@.capacity == old(self)@.capacity,
            old(self)@.requests.len() == 0 ==> oldest == None::<ActionRequest> && final(self)@.requests
                == old(self)@.requests,
            old(self)@.requests.len() > 0 ==> oldest == Some(old(self)@.requests[0])
                && final(self)@.requests == old(self)@.requests.drop_first(),
    {
        proof {
            use_type_invariant(&*self);
        }
        let mut requests = VecDeque::new();
        std::mem::swap(&mut requests, &mut self.requests);
        let oldest = requests.pop_front();
        std::mem::swap(&mut requests, &mut self.requests);
        oldest
    }

    /// Removes all pending local intent at a lifecycle boundary.
    pub fn clear(&mut self)
        ensures
            final(self)@.capacity == old(self)@.capacity,
            final(self)@.requests == Seq::<ActionRequest>::empty(),
    {
        proof {
            use_type_invariant(&*self);
        }
        self.requests = VecDeque::new();
    }

    /// Returns current bounded depth.
    pub fn len(&self) -> (depth: usize)
        ensures
            depth == self@.requests.len(),
            depth <= self@.capacity,
            1 <= self@.capacity <= MAXIMUM_QUEUE_CAPACITY,
    {
        proof {
            use_type_invariant(self);
        }
        self.requests.len()
    }

    /// Reports whether no request is queued.
    pub fn is_empty(&self) -> (empty: bool)
        ensures
            empty == (self@.requests.len() == 0),
    {
        self.requests.len() == 0
    }
}

/// Requests leave the queue in the order they were accepted: after the
/// accepted pushes of `first` and then `second` onto a queue holding
/// `pending`, popping yields everything in `pending`, then `first`, then `second`.
pub proof fn law_queue_is_first_in_first_out(
    pending: Seq<ActionRequest>,
    first: ActionRequest,
    second: ActionRequest,
)
    ensures
        pending.push(first).push(second).subrange(pending.len() as int, pending.len() + 2int) == seq![
            first,
            second,
        ],
        pending.push(first).push(second).subrange(0, pending.len() as int) == pending,
{
    assert(pending.push(first).push(second).subrange(pending.len() as int, pending.len() + 2int)
        =~= seq![first, second]);
    assert(pending.push(first).push(second).subrange(0, pending.len() as int) =~= pending);
}

} // verus!
