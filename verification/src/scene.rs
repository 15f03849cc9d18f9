//! Client-owned immutable bridge to the renderer scene contract.
use crate::session::{Entity, EntityView, Snapshot};
use vstd::prelude::*;

verus! {

/// Identifier of the scene contract this bridge produces.
pub const RENDERER_CONTRACT: &'static str = "scene-snapshot-1";

/// One entity as the renderer sees it.
#[derive(Clone, Copy, Debug, PartialEq, Eq, Structural)]
pub struct FrameEntity {
    pub stable_id: u64,
    pub generation: u32,
    pub x: i32,
    pub y: i32,
}

/// Immutable input for one rendered frame.
#[derive(Debug, PartialEq, Eq)]
pub struct FrameInput {
    pub session_revision: u64,
    pub map_generation: u64,
    pub entities: Vec<FrameEntity>,
}

/// The renderer's view of one session entity.
pub open spec fn frame_entity(entity: EntityView) -> FrameEntity {
    FrameEntity {
        stable_id: entity.handle.object_id,
        generation: entity.handle.object_generation,
        x: entity.x,
        y: entity.y,
    }
}

/// Adapts a snapshot to frame input, entity for entity and in order.
pub fn frame(snapshot: &Snapshot) -> (input: FrameInput)
    ensures
        input.session_revision == snapshot.revision,
        input.map_generation == snapshot.map_generation,
        input.entities@ == snapshot.entities@.map_values(|entity: Entity| frame_entity(entity@)),
{
    let mut entities: Vec<FrameEntity> = Vec::new();
    let mut i: usize = 0;
    while i < snapshot.entities.len()
        invariant
            0 <= i <= snapshot.entities@.len(),
            entities@ == snapshot.entities@.take(i as int).map_values(
                |entity: Entity| frame_entity(entity@),
            ),
        decreases snapshot.entities@.len() - i,
    {
        let entity = &snapshot.entities[i];
        entities.push(
            FrameEntity {
                stable_id: entity.handle.object_id,
                generation: entity.handle.object_generation,
                x: entity.x,
                y: entity.y,
            },
        );
        assert(entities@ =~= snapshot.entities@.take(i + 1).map_values(
            |entity: Entity| frame_entity(entity@),
        ));
        i = i + 1;
    }
    assert(snapshot.entities@.take(i as int) =~= snapshot.entities@);
    FrameInput {
        session_revision: snapshot.revision,
        map_generation: snapshot.map_generation,
        entities,
    }
}

} // verus!
