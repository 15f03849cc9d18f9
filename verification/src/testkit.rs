//! Synthetic deterministic fixtures for independent client tests.
use crate::actions::ActionRequest;
use crate::session::{
    event_views, initial_session, replay_events, snapshot_matches, ActionSink, RevisionedEvent,
    Session, SessionError, Snapshot,
};
use vstd::prelude::*;

verus! {

/// An action sink that records what it accepts, or rejects everything.
#[derive(Debug, Default)]
pub struct RecordingSink {
    pub requests: Vec<ActionRequest>,
    pub reject: bool,
}

impl ActionSink for RecordingSink {
    open spec fn obeys_sink_spec() -> bool {
        true
    }

    open spec fn answered(&self, before: &Self, request: ActionRequest, accepted: bool) -> bool {
        &&& self.reject == before.reject
        &&& accepted == !before.reject
        &&& self.requests@ == if before.reject {
            before.requests@
        } else {
            before.requests@.push(request)
        }
    }

    fn send(&mut self, request: &ActionRequest) -> (result: Result<(), SessionError>)
        ensures
            final(self).reject == old(self).reject,
            old(self).reject ==> result == Err::<(), SessionError>(SessionError::TransportRejected)
                && final(self).requests@ == old(self).requests@,
            !old(self).reject ==> result == Ok::<(), SessionError>(()) && final(self).requests@
                == old(self).requests@.push(*request),
    {
        if self.reject {
            Err(SessionError::TransportRejected)
        } else {
            self.requests.push(*request);
            Ok(())
        }
    }
}

/// Offers the events in order to a fresh session and returns its snapshot,
/// or the first rejection.
pub fn replay(events: Vec<RevisionedEvent>) -> (result: Result<Snapshot, SessionError>)
    ensures
        match replay_events(initial_session(), event_views(events@)) {
            Ok(state) => result is Ok && snapshot_matches(result->Ok_0, state),
            Err(error) => result == Err::<Snapshot, SessionError>(error),
        },
{
    let ghost all = event_views(events@);
    let mut session = Session::default();
    let ghost start = session@;
    assert(all.skip(0) =~= all);
    for event in it: events.into_iter()
        invariant
            it.seq() == events@,
            all == event_views(events@),
            session.wf(),
            replay_events(start, all) == replay_events(session@, all.skip(it.index())),
            start == initial_session(),
    {
        let ghost index = it.index();
        assert(all.skip(index)[0] == event@);
        assert(all.skip(index).drop_first() =~= all.skip(index + 1));
        match session.reduce(event) {
            Ok(()) => {},
            Err(error) => {
                return Err(error);
            },
        }
    }
    assert(all.skip(all.len() as int).len() == 0);
    Ok(session.snapshot())
}

} // verus!
