//! Pure, single-owner, revisioned client session state.
use crate::actions::{Action, ActionRequest, Direction, ObjectHandle};
use std::collections::{BTreeMap, BTreeSet, VecDeque};
use vstd::prelude::*;
use vstd::utf8::encode_utf8;
use vstd::std_specs::btree::increasing_seq;
use crate::ordered_keys::{keys_in_order, lemma_increasing_is_strict, lemma_increasing_refs_are_strict, lemma_keys_in_order_is, strictly_increasing, values_in_key_order};
use vstd::std_specs::iter::IteratorSpec;

verus! {

broadcast use vstd::std_specs::btree::group_btree_axioms;

/// Largest server-controlled text accepted, in UTF-8 bytes.
pub const MAX_TEXT_BYTES: usize = 512;
/// Largest number of live entities.
pub const MAX_ENTITIES: usize = 65536;
/// Largest inventory replay.
pub const MAX_INVENTORY: usize = 4096;
/// Number of messages retained; older ones are dropped first.
pub const MAX_MESSAGES: usize = 1024;
/// Largest number of locally accepted, unresolved actions.
pub const MAX_PENDING_ACTIONS: usize = 256;
/// Largest absolute entity coordinate.
pub const MAX_COORDINATE: i32 = 1000000;

/// Lifecycle phase of a session.
#[derive(Clone, Copy, Debug, PartialEq, Eq, Structural)]
pub enum Phase {
    Disconnected,
    Connected,
    Playing,
}

impl Default for Phase {
    fn default() -> (phase: Phase)
        ensures
            phase == Phase::Disconnected,
    {
        Phase::Disconnected
    }
}

/// A map entity.
#[derive(Debug, PartialEq, Eq)]
pub struct Entity {
    pub handle: ObjectHandle,
    pub x: i32,
    pub y: i32,
    pub name: String,
}

/// Abstract value of an [`Entity`].
pub struct EntityView {
    pub handle: ObjectHandle,
    pub x: i32,
    pub y: i32,
    pub name: Seq<char>,
}

impl View for Entity {
    type V = EntityView;

    open spec fn view(&self) -> EntityView {
        EntityView { handle: self.handle, x: self.x, y: self.y, name: self.name@ }
    }
}

impl Clone for Entity {
    fn clone(&self) -> (copy: Entity)
        ensures
            copy@ == self@,
    {
        Entity { handle: self.handle, x: self.x, y: self.y, name: self.name.clone() }
    }
}

/// An inventory item.
#[derive(Debug, PartialEq, Eq)]
pub struct Item {
    pub handle: ObjectHandle,
    pub quantity: u32,
    pub name: String,
}

/// Abstract value of an [`Item`].
pub struct ItemView {
    pub handle: ObjectHandle,
    pub quantity: u32,
    pub name: Seq<char>,
}

impl View for Item {
    type V = ItemView;

    open spec fn view(&self) -> ItemView {
        ItemView { handle: self.handle, quantity: self.quantity, name: self.name@ }
    }
}

impl Clone for Item {
    fn clone(&self) -> (copy: Item)
        ensures
            copy@ == self@,
    {
        Item { handle: self.handle, quantity: self.quantity, name: self.name.clone() }
    }
}

/// The local player's state.
#[derive(Clone, Copy, Debug, PartialEq, Eq, Structural)]
pub struct Player {
    pub health: u32,
    pub health_max: u32,
    pub movement: Option<Direction>,
    pub target: Option<ObjectHandle>,
}

/// The player of a fresh or reset session.
pub open spec fn empty_player() -> Player {
    Player { health: 0, health_max: 0, movement: None, target: None }
}

/// A client-owned domain event.
#[derive(Debug, PartialEq, Eq)]
pub enum Event {
    Connected,
    EnteredWorld,
    Disconnected,
    PlayerStats { health: u32, health_max: u32 },
    MapReset { map_generation: u64 },
    EntityUpsert(Entity),
    EntityRemoved(ObjectHandle),
    InventoryReplay(Vec<Item>),
    DialogReplaced(String),
    QuestReplaced(String),
    Message(String),
    ActionResolved { request_id: u64 },
}

/// Abstract value of an [`Event`].
pub enum EventView {
    Connected,
    EnteredWorld,
    Disconnected,
    PlayerStats { health: u32, health_max: u32 },
    MapReset { map_generation: u64 },
    EntityUpsert(EntityView),
    EntityRemoved(ObjectHandle),
    InventoryReplay(Seq<ItemView>),
    DialogReplaced(Seq<char>),
    QuestReplaced(Seq<char>),
    Message(Seq<char>),
    ActionResolved { request_id: u64 },
}

/// The abstract values of a sequence of items.
pub open spec fn item_views(items: Seq<Item>) -> Seq<ItemView> {
    items.map_values(|item: Item| item@)
}

impl View for Event {
    type V = EventView;

    open spec fn view(&self) -> EventView {
        match self {
            Event::Connected => EventView::Connected,
            Event::EnteredWorld => EventView::EnteredWorld,
            Event::Disconnected => EventView::Disconnected,
            Event::PlayerStats { health, health_max } => EventView::PlayerStats {
                health: *health,
                health_max: *health_max,
            },
            Event::MapReset { map_generation } => EventView::MapReset {
                map_generation: *map_generation,
            },
            Event::EntityUpsert(entity) => EventView::EntityUpsert(entity@),
            Event::EntityRemoved(handle) => EventView::EntityRemoved(*handle),
            Event::InventoryReplay(items) => EventView::InventoryReplay(item_views(items@)),
            Event::DialogReplaced(text) => EventView::DialogReplaced(text@),
            Event::QuestReplaced(text) => EventView::QuestReplaced(text@),
            Event::Message(text) => EventView::Message(text@),
            Event::ActionResolved { request_id } => EventView::ActionResolved {
                request_id: *request_id,
            },
        }
    }
}

/// An event stamped with its revision and session generation.
#[derive(Debug, PartialEq, Eq)]
pub struct RevisionedEvent {
    pub revision: u64,
    pub session_generation: u64,
    pub event: Event,
}

/// Abstract value of a [`RevisionedEvent`].
pub struct RevisionedEventView {
    pub revision: u64,
    pub session_generation: u64,
    pub event: EventView,
}

impl View for RevisionedEvent {
    type V = RevisionedEventView;

    open spec fn view(&self) -> RevisionedEventView {
        RevisionedEventView {
            revision: self.revision,
            session_generation: self.session_generation,
            event: self.event@,
        }
    }
}

/// An immutable copy of the session for presentation.
#[derive(Debug, PartialEq, Eq)]
pub struct Snapshot {
    pub revision: u64,
    pub session_generation: u64,
    pub map_generation: u64,
    pub phase: Phase,
    pub player: Player,
    pub entities: Vec<Entity>,
    pub inventory: Vec<Item>,
    pub dialog: String,
    pub quest: String,
    pub messages: Vec<String>,
    pub pending_action_ids: Vec<u64>,
}

/// Receives locally accepted action requests for delivery.
pub trait ActionSink {
    /// Whether this sink states its behaviour through [`ActionSink::answered`];
    /// an implementation that does not override it states nothing.
    open spec fn obeys_sink_spec() -> bool {
        false
    }

    /// Whether this sink is what `before` became by one offer of `request`,
    /// answered with acceptance (`true`) or rejection (`false`).
    open spec fn answered(&self, before: &Self, request: ActionRequest, accepted: bool) -> bool {
        false
    }

    /// Offers a request for delivery once: `Ok` when the sink accepted it.
    fn send(&mut self, request: &ActionRequest) -> (result: Result<(), SessionError>)
        ensures
            Self::obeys_sink_spec() ==> final(self).answered(old(self), *request, result is Ok),
    ;
}

/// Why an event or action was rejected; a rejection never changes the session.
#[derive(Clone, Copy, Debug, PartialEq, Eq, Structural)]
pub enum SessionError {
    RevisionGap,
    StaleSession,
    StaleHandle,
    InvalidTransition,
    InvalidValue,
    CollectionLimit,
    TextLimit,
    PendingLimit,
    DuplicateRequest,
    TransportRejected,
}

impl SessionError {
    /// Human-readable description of the rejection.
    pub fn message(&self) -> (text: &'static str)
        ensures
            text == session_error_message(*self),
    {
        match self {
            SessionError::RevisionGap => "session revision is stale, duplicate, or has a gap",
            SessionError::StaleSession => "event belongs to a stale session generation",
            SessionError::StaleHandle => "object handle is stale",
            SessionError::InvalidTransition => "session lifecycle transition is invalid",
            SessionError::InvalidValue => "session value is invalid",
            SessionError::CollectionLimit => "session collection exceeds its bound",
            SessionError::TextLimit => "server-controlled text exceeds its bound",
            SessionError::PendingLimit => "pending action limit reached",
            SessionError::DuplicateRequest => "action correlation identifier is duplicated",
            SessionError::TransportRejected => "transport rejected the local action request",
        }
    }
}

/// The fixed human-readable description of each rejection.
pub open spec fn session_error_message(error: SessionError) -> &'static str {
    match error {
        SessionError::RevisionGap => "session revision is stale, duplicate, or has a gap",
        SessionError::StaleSession => "event belongs to a stale session generation",
        SessionError::StaleHandle => "object handle is stale",
        SessionError::InvalidTransition => "session lifecycle transition is invalid",
        SessionError::InvalidValue => "session value is invalid",
        SessionError::CollectionLimit => "session collection exceeds its bound",
        SessionError::TextLimit => "server-controlled text exceeds its bound",
        SessionError::PendingLimit => "pending action limit reached",
        SessionError::DuplicateRequest => "action correlation identifier is duplicated",
        SessionError::TransportRejected => "transport rejected the local action request",
    }
}

/// Abstract state of a [`Session`].
pub struct SessionView {
    pub revision: u64,
    pub generation: u64,
    pub map_generation: u64,
    pub phase: Phase,
    pub player: Player,
    pub entities: Map<u64, EntityView>,
    pub entity_generations: Map<u64, u32>,
    pub inventory: Map<u64, ItemView>,
    pub inventory_generations: Map<u64, u32>,
    pub dialog: Seq<char>,
    pub quest: Seq<char>,
    pub messages: Seq<Seq<char>>,
    pub pending: Map<u64, Action>,
}

// ---------------------------------------------------------------------------
// The reducer, stated over abstract states.
// ---------------------------------------------------------------------------
/// Server text is at most 512 UTF-8 bytes and holds no NUL.
pub open spec fn text_within_bounds(text: Seq<char>) -> bool {
    encode_utf8(text).len() <= MAX_TEXT_BYTES && !encode_utf8(text).contains(0u8)
}

/// A coordinate lies within the authoritative grid bound.
pub open spec fn coordinate_within_bounds(value: i32) -> bool {
    -MAX_COORDINATE <= value <= MAX_COORDINATE
}

/// A handle names a map object of the current session and map.
pub open spec fn handle_generation_valid(s: SessionView, handle: ObjectHandle) -> bool {
    &&& handle.object_id != 0
    &&& handle.object_generation != 0
    &&& handle.session_generation == s.generation
    &&& handle.map_generation == s.map_generation
}

/// A handle names an inventory object of the current session.
pub open spec fn inventory_generation_valid(s: SessionView, handle: ObjectHandle) -> bool {
    &&& handle.object_id != 0
    &&& handle.object_generation != 0
    &&& handle.session_generation == s.generation
    &&& handle.map_generation == 0
}

/// The handle is exactly that of a live entity.
pub open spec fn handle_is_current(s: SessionView, handle: ObjectHandle) -> bool {
    s.entities.contains_key(handle.object_id) && s.entities[handle.object_id].handle == handle
}

/// The handle is exactly that of a held inventory item.
pub open spec fn inventory_handle_is_current(s: SessionView, handle: ObjectHandle) -> bool {
    s.inventory.contains_key(handle.object_id) && s.inventory[handle.object_id].handle == handle
}

/// The first reason, in list order, why an inventory replay cannot be applied;
/// `seen` holds the identifiers of the items before `items`.
pub open spec fn inventory_replay_error(s: SessionView, items: Seq<ItemView>, seen: Set<u64>) -> Option<
    SessionError,
>
    decreases items.len(),
{
    if items.len() == 0 {
        None
    } else {
        let item = items[0];
        let id = item.handle.object_id;
        if !text_within_bounds(item.name) {
            Some(SessionError::TextLimit)
        } else if item.quantity == 0 || !inventory_generation_valid(s, item.handle) || seen.contains(
            id,
        ) {
            Some(SessionError::InvalidValue)
        } else if s.inventory.contains_key(id) && s.inventory[id].handle.object_generation
            != item.handle.object_generation {
            Some(SessionError::StaleHandle)
        } else if !s.inventory.contains_key(id) && s.inventory_generations.contains_key(id)
            && item.handle.object_generation <= s.inventory_generations[id] {
            Some(SessionError::StaleHandle)
        } else {
            inventory_replay_error(s, items.drop_first(), seen.insert(id))
        }
    }
}

/// Why an event cannot be applied to a state, checked before anything changes.
pub open spec fn spec_preflight(s: SessionView, event: EventView) -> Result<(), SessionError> {
    match event {
        EventView::Connected => if s.phase != Phase::Disconnected {
            Err(SessionError::InvalidTransition)
        } else {
            Ok(())
        },
        EventView::EnteredWorld => if s.phase != Phase::Connected {
            Err(SessionError::InvalidTransition)
        } else {
            Ok(())
        },
        EventView::Disconnected => if s.phase == Phase::Disconnected {
            Err(SessionError::InvalidTransition)
        } else {
            Ok(())
        },
        EventView::PlayerStats { health, health_max } => if health_max == 0 || health
            > health_max {
            Err(SessionError::InvalidValue)
        } else {
            Ok(())
        },
        EventView::MapReset { map_generation } => if map_generation <= s.map_generation {
            Err(SessionError::InvalidValue)
        } else {
            Ok(())
        },
        EventView::EntityUpsert(entity) => {
            let id = entity.handle.object_id;
            if !text_within_bounds(entity.name) {
                Err(SessionError::TextLimit)
            } else if !handle_generation_valid(s, entity.handle) {
                Err(SessionError::StaleHandle)
            } else if !coordinate_within_bounds(entity.x) || !coordinate_within_bounds(entity.y) {
                Err(SessionError::InvalidValue)
            } else if s.entities.contains_key(id) {
                if s.entities[id].handle.object_generation != entity.handle.object_generation {
                    Err(SessionError::StaleHandle)
                } else {
                    Ok(())
                }
            } else if s.entities.len() == MAX_ENTITIES {
                Err(SessionError::CollectionLimit)
            } else if s.entity_generations.contains_key(id) && entity.handle.object_generation
                <= s.entity_generations[id] {
                Err(SessionError::StaleHandle)
            } else {
                Ok(())
            }
        },
        EventView::EntityRemoved(handle) => if !handle_is_current(s, handle) {
            Err(SessionError::StaleHandle)
        } else {
            Ok(())
        },
        EventView::InventoryReplay(items) => if items.len() > MAX_INVENTORY {
            Err(SessionError::CollectionLimit)
        } else {
            match inventory_replay_error(s, items, Set::empty()) {
                Some(error) => Err(error),
                None => Ok(()),
            }
        },
        EventView::DialogReplaced(text) => if !text_within_bounds(text) {
            Err(SessionError::TextLimit)
        } else {
            Ok(())
        },
        EventView::QuestReplaced(text) => if !text_within_bounds(text) {
            Err(SessionError::TextLimit)
        } else {
            Ok(())
        },
        EventView::Message(text) => if !text_within_bounds(text) {
            Err(SessionError::TextLimit)
        } else {
            Ok(())
        },
        EventView::ActionResolved { request_id } => if !s.pending.contains_key(request_id) {
            Err(SessionError::InvalidValue)
        } else {
            Ok(())
        },
    }
}

/// A state with every transient part (map, objects, text, messages, pending
/// intent, player) cleared; revision, generation and phase are kept.
pub open spec fn spec_reset_transient(s: SessionView) -> SessionView {
    SessionView {
        map_generation: 0,
        entities: Map::empty(),
        entity_generations: Map::empty(),
        inventory: Map::empty(),
        inventory_generations: Map::empty(),
        dialog: Seq::empty(),
        quest: Seq::empty(),
        messages: Seq::empty(),
        pending: Map::empty(),
        player: empty_player(),
        ..s
    }
}

/// The items of a replay keyed by object identifier, later entries winning.
pub open spec fn items_by_id(items: Seq<ItemView>) -> Map<u64, ItemView>
    decreases items.len(),
{
    if items.len() == 0 {
        Map::empty()
    } else {
        items_by_id(items.drop_last()).insert(items.last().handle.object_id, items.last())
    }
}

/// The generation of each replayed item, later entries winning.
pub open spec fn item_generations(items: Seq<ItemView>) -> Map<u64, u32>
    decreases items.len(),
{
    if items.len() == 0 {
        Map::empty()
    } else {
        item_generations(items.drop_last()).insert(
            items.last().handle.object_id,
            items.last().handle.object_generation,
        )
    }
}

/// The retained message log after appending `text`.
pub open spec fn append_message(messages: Seq<Seq<char>>, text: Seq<char>) -> Seq<Seq<char>> {
    if messages.len() == MAX_MESSAGES {
        messages.drop_first().push(text)
    } else {
        messages.push(text)
    }
}

/// The state after applying an event that passed [`spec_preflight`].
pub open spec fn spec_commit(s: SessionView, event: EventView) -> SessionView {
    match event {
        EventView::Connected => SessionView { phase: Phase::Connected, ..spec_reset_transient(s) },
        EventView::EnteredWorld => SessionView { phase: Phase::Playing, ..s },
        EventView::Disconnected => SessionView {
            phase: Phase::Disconnected,
            ..spec_reset_transient(s)
        },
        EventView::PlayerStats { health, health_max } => SessionView {
            player: Player { health, health_max, ..s.player },
            ..s
        },
        EventView::MapReset { map_generation } => SessionView {
            map_generation,
            entities: Map::empty(),
            entity_generations: Map::empty(),
            player: Player { target: None, ..s.player },
            ..s
        },
        EventView::EntityUpsert(entity) => SessionView {
            entity_generations: s.entity_generations.insert(
                entity.handle.object_id,
                entity.handle.object_generation,
            ),
            entities: s.entities.insert(entity.handle.object_id, entity),
            ..s
        },
        EventView::EntityRemoved(handle) => SessionView {
            entities: s.entities.remove(handle.object_id),
            player: if s.player.target == Some(handle) {
                Player { target: None, ..s.player }
            } else {
                s.player
            },
            ..s
        },
        EventView::InventoryReplay(items) => SessionView {
            inventory_generations: s.inventory_generations.union_prefer_right(
                item_generations(items),
            ),
            inventory: items_by_id(items),
            ..s
        },
        EventView::DialogReplaced(text) => SessionView { dialog: text, ..s },
        EventView::QuestReplaced(text) => SessionView { quest: text, ..s },
        EventView::Message(text) => SessionView {
            messages: append_message(s.messages, text),
            ..s
        },
        EventView::ActionResolved { request_id } => SessionView {
            pending: s.pending.remove(request_id),
            ..s
        },
    }
}

/// The outcome of offering a revisioned event to a state: the next state, or
/// the reason it was rejected.
pub open spec fn spec_reduce(s: SessionView, incoming: RevisionedEventView) -> Result<
    SessionView,
    SessionError,
> {
    let connecting = incoming.event is Connected;
    if s.revision == u64::MAX || incoming.revision != s.revision + 1 {
        Err(SessionError::RevisionGap)
    } else if connecting && (s.phase != Phase::Disconnected || incoming.session_generation
        <= s.generation) {
        Err(SessionError::InvalidTransition)
    } else if !connecting && incoming.session_generation != s.generation {
        Err(SessionError::StaleSession)
    } else {
        match spec_preflight(s, incoming.event) {
            Err(error) => Err(error),
            Ok(()) => {
                let next = spec_commit(s, incoming.event);
                Ok(
                    SessionView {
                        revision: incoming.revision,
                        generation: if connecting {
                            incoming.session_generation
                        } else {
                            s.generation
                        },
                        ..next
                    },
                )
            },
        }
    }
}

/// The handle an action refers to, if any.
pub open spec fn action_handle(action: Action) -> Option<ObjectHandle> {
    match action {
        Action::Target(value) => Some(value),
        Action::Attack(value) => Some(value),
        Action::Apply(value) => Some(value),
        Action::Get(value) => Some(value),
        Action::Talk(value) => Some(value),
        Action::Cast { target, .. } => target,
        Action::Drop { item, .. } => Some(item),
        _ => None,
    }
}

/// Why an action is malformed or refers to something that no longer exists.
pub open spec fn spec_validate_action(s: SessionView, action: Action) -> Result<(), SessionError> {
    match action {
        Action::Cast { spell_id: 0, .. } => Err(SessionError::InvalidValue),
        Action::Reply { choice_id: 0 } => Err(SessionError::InvalidValue),
        Action::SelectCharacter { character_id: 0 } => Err(SessionError::InvalidValue),
        Action::Drop { quantity: 0, .. } => Err(SessionError::InvalidValue),
        _ => match action_handle(action) {
            Some(handle) => if !handle_is_current(s, handle) && !inventory_handle_is_current(
                s,
                handle,
            ) {
                Err(SessionError::StaleHandle)
            } else {
                Ok(())
            },
            None => Ok(()),
        },
    }
}

/// Why an action request cannot be handed to the sink in this state.
pub open spec fn spec_dispatch_check(s: SessionView, request: ActionRequest) -> Result<
    (),
    SessionError,
> {
    let selecting = request.action is SelectCharacter;
    if !((selecting && s.phase == Phase::Connected) || (!selecting && s.phase == Phase::Playing)) {
        Err(SessionError::InvalidTransition)
    } else if request.id == 0 || s.pending.contains_key(request.id) {
        Err(SessionError::DuplicateRequest)
    } else if s.pending.len() == MAX_PENDING_ACTIONS {
        Err(SessionError::PendingLimit)
    } else {
        spec_validate_action(s, request.action)
    }
}

/// The state after the sink accepted a request: local movement/target intent
/// and the pending request are recorded.
pub open spec fn spec_dispatch_commit(s: SessionView, request: ActionRequest) -> SessionView {
    let player = match request.action {
        Action::Move(direction) => Player { movement: Some(direction), ..s.player },
        Action::Stop => Player { movement: None, ..s.player },
        Action::Target(handle) => Player { target: Some(handle), ..s.player },
        _ => s.player,
    };
    SessionView { player, pending: s.pending.insert(request.id, request.action), ..s }
}

/// The state of a session that has seen no event.
pub open spec fn initial_session() -> SessionView {
    SessionView {
        revision: 0,
        generation: 0,
        map_generation: 0,
        phase: Phase::Disconnected,
        player: empty_player(),
        entities: Map::empty(),
        entity_generations: Map::empty(),
        inventory: Map::empty(),
        inventory_generations: Map::empty(),
        dialog: Seq::empty(),
        quest: Seq::empty(),
        messages: Seq::empty(),
        pending: Map::empty(),
    }
}

/// The structural invariant of every reachable session state.
pub open spec fn session_invariant(s: SessionView) -> bool {
    &&& s.entities.dom().finite()
    &&& s.inventory.dom().finite()
    &&& s.pending.dom().finite()
    &&& s.entities.len() <= MAX_ENTITIES
    &&& s.inventory.len() <= MAX_INVENTORY
    &&& s.pending.len() <= MAX_PENDING_ACTIONS
    &&& s.messages.len() <= MAX_MESSAGES
    &&& forall|id: u64| #[trigger]
        s.entities.contains_key(id) ==> s.entities[id].handle.object_id == id
            && s.entity_generations.contains_key(id) && s.entity_generations[id]
            == s.entities[id].handle.object_generation
    &&& forall|id: u64| #[trigger]
        s.inventory.contains_key(id) ==> s.inventory[id].handle.object_id == id
            && s.inventory_generations.contains_key(id) && s.inventory_generations[id]
            == s.inventory[id].handle.object_generation
}

/// The replayed item maps agree on their keys, are no larger than the replay,
/// key each item by its own identifier, and record each item's generation.
pub proof fn lemma_replay_maps(items: Seq<ItemView>)
    ensures
        items_by_id(items).dom() == item_generations(items).dom(),
        items_by_id(items).dom().finite(),
        items_by_id(items).len() <= items.len(),
        forall|id: u64| #[trigger]
            items_by_id(items).contains_key(id) ==> items_by_id(items)[id].handle.object_id == id
                && item_generations(items)[id] == items_by_id(items)[id].handle.object_generation,
    decreases items.len(),
{
    if items.len() > 0 {
        lemma_replay_maps(items.drop_last());
        let rest = items_by_id(items.drop_last());
        let key = items.last().handle.object_id;
        assert(items_by_id(items).dom() =~= item_generations(items).dom());
        if rest.contains_key(key) {
            assert(rest.insert(key, items.last()).dom() =~= rest.dom());
        } else {
            assert(rest.insert(key, items.last()).dom() =~= rest.dom().insert(key));
        }
    } else {
        assert(items_by_id(items).dom() =~= item_generations(items).dom());
    }
}

/// Keying entities by identifier commutes with taking abstract values.
pub proof fn lemma_entity_views_insert(m: Map<u64, Entity>, key: u64, entity: Entity)
    ensures
        entity_views(m.insert(key, entity)) == entity_views(m).insert(key, entity@),
        entity_views(m).dom() == m.dom(),
{
    assert(entity_views(m.insert(key, entity)) =~= entity_views(m).insert(key, entity@));
    assert(entity_views(m).dom() =~= m.dom());
}

/// Removing an entity commutes with taking abstract values.
pub proof fn lemma_entity_views_remove(m: Map<u64, Entity>, key: u64)
    ensures
        entity_views(m.remove(key)) == entity_views(m).remove(key),
{
    assert(entity_views(m.remove(key)) =~= entity_views(m).remove(key));
}

/// Keying items by identifier commutes with taking abstract values.
pub proof fn lemma_item_views_insert(m: Map<u64, Item>, key: u64, item: Item)
    ensures
        item_map_views(m.insert(key, item)) == item_map_views(m).insert(key, item@),
        item_map_views(m).dom() == m.dom(),
{
    assert(item_map_views(m.insert(key, item)) =~= item_map_views(m).insert(key, item@));
    assert(item_map_views(m).dom() =~= m.dom());
}

/// A snapshot holds exactly the state: objects in identifier order, messages
/// oldest first, and the identifiers of pending requests in order.
pub open spec fn snapshot_matches(snapshot: Snapshot, s: SessionView) -> bool {
    &&& snapshot.revision == s.revision
    &&& snapshot.session_generation == s.generation
    &&& snapshot.map_generation == s.map_generation
    &&& snapshot.phase == s.phase
    &&& snapshot.player == s.player
    &&& snapshot.entities@.map_values(|entity: Entity| entity@) == values_in_key_order(s.entities)
    &&& item_views(snapshot.inventory@) == values_in_key_order(s.inventory)
    &&& snapshot.dialog@ == s.dialog
    &&& snapshot.quest@ == s.quest
    &&& text_views(snapshot.messages@) == s.messages
    &&& snapshot.pending_action_ids@ == keys_in_order(s.pending.dom())
}

/// A snapshot lists entities and inventory in ascending object identifier and
/// the pending request identifiers in ascending order.
pub open spec fn snapshot_ordered(snapshot: Snapshot) -> bool {
    &&& forall|i: int, j: int|
        0 <= i < j < snapshot.entities@.len() ==> #[trigger] snapshot.entities@[i].handle.object_id
            < #[trigger] snapshot.entities@[j].handle.object_id
    &&& forall|i: int, j: int|
        0 <= i < j < snapshot.inventory@.len() ==> #[trigger] snapshot.inventory@[i].handle.object_id
            < #[trigger] snapshot.inventory@[j].handle.object_id
    &&& strictly_increasing(snapshot.pending_action_ids@)
}

/// The outcome of offering events one after another, stopping at the first
/// rejection.
pub open spec fn replay_events(s: SessionView, events: Seq<RevisionedEventView>) -> Result<
    SessionView,
    SessionError,
>
    decreases events.len(),
{
    if events.len() == 0 {
        Ok(s)
    } else {
        match spec_reduce(s, events[0]) {
            Ok(next) => replay_events(next, events.drop_first()),
            Err(error) => Err(error),
        }
    }
}

/// The abstract values of a sequence of revisioned events.
pub open spec fn event_views(events: Seq<RevisionedEvent>) -> Seq<RevisionedEventView> {
    events.map_values(|event: RevisionedEvent| event@)
}

/// An executable session.
#[derive(Clone, Debug)]
pub struct Session {
    revision: u64,
    generation: u64,
    map_generation: u64,
    phase: Phase,
    player: Player,
    entities: BTreeMap<u64, Entity>,
    entity_generations: BTreeMap<u64, u32>,
    inventory: BTreeMap<u64, Item>,
    inventory_generations: BTreeMap<u64, u32>,
    dialog: String,
    quest: String,
    messages: VecDeque<String>,
    pending: BTreeMap<u64, Action>,
}

/// Abstract values of a map of entities.
pub open spec fn entity_views(m: Map<u64, Entity>) -> Map<u64, EntityView> {
    m.map_values(|entity: Entity| entity@)
}

/// Abstract values of a map of items.
pub open spec fn item_map_views(m: Map<u64, Item>) -> Map<u64, ItemView> {
    m.map_values(|item: Item| item@)
}

/// Abstract values of a sequence of strings.
pub open spec fn text_views(s: Seq<String>) -> Seq<Seq<char>> {
    s.map_values(|text: String| text@)
}

impl View for Session {
    type V = SessionView;

    closed spec fn view(&self) -> SessionView {
        SessionView {
            revision: self.revision,
            generation: self.generation,
            map_generation: self.map_generation,
            phase: self.phase,
            player: self.player,
            entities: entity_views(self.entities@),
            entity_generations: self.entity_generations@,
            inventory: item_map_views(self.inventory@),
            inventory_generations: self.inventory_generations@,
            dialog: self.dialog@,
            quest: self.quest@,
            messages: text_views(self.messages@),
            pending: self.pending@,
        }
    }
}

impl Default for Session {
    fn default() -> (session: Session)
        ensures
            session@ == initial_session(),
            session.wf(),
    {
        let session = Session {
            revision: 0,
            generation: 0,
            map_generation: 0,
            phase: Phase::Disconnected,
            player: Player { health: 0, health_max: 0, movement: None, target: None },
            entities: BTreeMap::new(),
            entity_generations: BTreeMap::new(),
            inventory: BTreeMap::new(),
            inventory_generations: BTreeMap::new(),
            dialog: String::new(),
            quest: String::new(),
            messages: VecDeque::new(),
            pending: BTreeMap::new(),
        };
        assert(session@.entities =~= Map::empty());
        assert(session@.inventory =~= Map::empty());
        assert(session@.messages =~= Seq::empty());
        session
    }
}

fn validate_text(text: &String) -> (result: Result<(), SessionError>)
    ensures
        result == (if text_within_bounds(text@) {
            Ok(())
        } else {
            Err(SessionError::TextLimit)
        }),
{
    let bytes = text.as_str().as_bytes();
    if bytes.len() > MAX_TEXT_BYTES {
        return Err(SessionError::TextLimit);
    }
    let mut i: usize = 0;
    while i < bytes.len()
        invariant
            0 <= i <= bytes@.len(),
            bytes@ == encode_utf8(text@),
            forall|j: int| 0 <= j < i ==> bytes@[j] != 0u8,
        decreases bytes@.len() - i,
    {
        if bytes[i] == 0 {
            assert(bytes@.contains(0u8));
            return Err(SessionError::TextLimit);
        }
        i = i + 1;
    }
    Ok(())
}

impl Session {
    /// The structural invariant holds for this session.
    pub closed spec fn wf(&self) -> bool {
        session_invariant(self@)
    }

    /// A well-formed session keeps every bound of the structural invariant
    /// (entities, inventory, pending requests and messages within their
    /// limits, each object keyed by its own identifier).
    pub proof fn lemma_wf_bounds(&self)
        requires
            self.wf(),
        ensures
            session_invariant(self@),
    {
    }

    fn handle_generation_valid(&self, handle: ObjectHandle) -> (valid: bool)
        ensures
            valid == handle_generation_valid(self@, handle),
    {
        handle.object_id != 0 && handle.object_generation != 0 && handle.session_generation
            == self.generation && handle.map_generation == self.map_generation
    }

    fn inventory_generation_valid(&self, handle: ObjectHandle) -> (valid: bool)
        ensures
            valid == inventory_generation_valid(self@, handle),
    {
        handle.object_id != 0 && handle.object_generation != 0 && handle.session_generation
            == self.generation && handle.map_generation == 0
    }

    fn handle_is_current(&self, handle: ObjectHandle) -> (current: bool)
        ensures
            current == handle_is_current(self@, handle),
    {
        match self.entities.get(&handle.object_id) {
            Some(entity) => entity.handle == handle,
            None => false,
        }
    }

    fn inventory_handle_is_current(&self, handle: ObjectHandle) -> (current: bool)
        ensures
            current == inventory_handle_is_current(self@, handle),
    {
        match self.inventory.get(&handle.object_id) {
            Some(item) => item.handle == handle,
            None => false,
        }
    }

    fn inventory_replay_check(&self, items: &Vec<Item>) -> (result: Result<(), SessionError>)
        ensures
            result == match inventory_replay_error(self@, item_views(items@), Set::empty()) {
                Some(error) => Err(error),
                None => Ok(()),
            },
    {
        let ghost all = item_views(items@);
        let mut ids: BTreeSet<u64> = BTreeSet::new();
        let mut i: usize = 0;
        assert(all.skip(0) =~= all);
        while i < items.len()
            invariant
                0 <= i <= items@.len(),
                all == item_views(items@),
                inventory_replay_error(self@, all, Set::empty()) == inventory_replay_error(
                    self@,
                    all.skip(i as int),
                    ids@,
                ),
            decreases items@.len() - i,
        {
            let item = &items[i];
            let id = item.handle.object_id;
            assert(all.skip(i as int)[0] == item@);
            assert(all.skip(i as int).drop_first() =~= all.skip(i + 1));
            if validate_text(&item.name).is_err() {
                return Err(SessionError::TextLimit);
            }
            if item.quantity == 0 || !self.inventory_generation_valid(item.handle) || !ids.insert(
                id,
            ) {
                return Err(SessionError::InvalidValue);
            }
            match self.inventory.get(&id) {
                Some(current) => {
                    if current.handle.object_generation != item.handle.object_generation {
                        return Err(SessionError::StaleHandle);
                    }
                },
                None => {
                    match self.inventory_generations.get(&id) {
                        Some(generation) => {
                            if item.handle.object_generation <= *generation {
                                return Err(SessionError::StaleHandle);
                            }
                        },
                        None => {},
                    }
                },
            }
            i = i + 1;
        }
        assert(all.skip(i as int).len() == 0);
        Ok(())
    }

    fn entity_upsert_check(&self, entity: &Entity) -> (result: Result<(), SessionError>)
        requires
            self.wf(),
        ensures
            result == spec_preflight(self@, EventView::EntityUpsert(entity@)),
    {
            if validate_text(&entity.name).is_err() {
                return Err(SessionError::TextLimit);
            }
            if !self.handle_generation_valid(entity.handle) {
                return Err(SessionError::StaleHandle);
            }
            if entity.x < -MAX_COORDINATE || entity.x > MAX_COORDINATE || entity.y
                < -MAX_COORDINATE || entity.y > MAX_COORDINATE {
                return Err(SessionError::InvalidValue);
            }
            let id = entity.handle.object_id;
            match self.entities.get(&id) {
                Some(current) => {
                    if current.handle.object_generation != entity.handle.object_generation {
                        Err(SessionError::StaleHandle)
                    } else {
                        Ok(())
                    }
                },
                None => {
                    assert(self@.entities.dom() =~= self.entities@.dom());
                    if self.entities.len() == MAX_ENTITIES {
                        return Err(SessionError::CollectionLimit);
                    }
                    match self.entity_generations.get(&id) {
                        Some(generation) => {
                            if entity.handle.object_generation <= *generation {
                                Err(SessionError::StaleHandle)
                            } else {
                                Ok(())
                            }
                        },
                        None => Ok(()),
                    }
                },
            }
    }

    fn preflight(&self, event: &Event) -> (result: Result<(), SessionError>)
        requires
            self.wf(),
        ensures
            result == spec_preflight(self@, event@),
    {
        match event {
            Event::Connected => if self.phase != Phase::Disconnected {
                Err(SessionError::InvalidTransition)
            } else {
                Ok(())
            },
            Event::EnteredWorld => if self.phase != Phase::Connected {
                Err(SessionError::InvalidTransition)
            } else {
                Ok(())
            },
            Event::Disconnected => if self.phase == Phase::Disconnected {
                Err(SessionError::InvalidTransition)
            } else {
                Ok(())
            },
            Event::PlayerStats { health, health_max } => if *health_max == 0 || *health
                > *health_max {
                Err(SessionError::InvalidValue)
            } else {
                Ok(())
            },
            Event::MapReset { map_generation } => if *map_generation <= self.map_generation {
                Err(SessionError::InvalidValue)
            } else {
                Ok(())
            },
            Event::EntityUpsert(entity) => self.entity_upsert_check(entity),
            Event::EntityRemoved(handle) => if !self.handle_is_current(*handle) {
                Err(SessionError::StaleHandle)
            } else {
                Ok(())
            },
            Event::InventoryReplay(items) => {
                if items.len() > MAX_INVENTORY {
                    return Err(SessionError::CollectionLimit);
                }
                self.inventory_replay_check(items)
            },
            Event::DialogReplaced(text) => validate_text(text),
            Event::QuestReplaced(text) => validate_text(text),
            Event::Message(text) => validate_text(text),
            Event::ActionResolved { request_id } => if !self.pending.contains_key(request_id) {
                Err(SessionError::InvalidValue)
            } else {
                Ok(())
            },
        }
    }

    fn reset_transient(&mut self)
        ensures
            final(self)@ == spec_reset_transient(old(self)@),
    {
        self.map_generation = 0;
        self.entities = BTreeMap::new();
        self.entity_generations = BTreeMap::new();
        self.inventory = BTreeMap::new();
        self.inventory_generations = BTreeMap::new();
        self.dialog = String::new();
        self.quest = String::new();
        self.messages = VecDeque::new();
        self.pending = BTreeMap::new();
        self.player = Player { health: 0, health_max: 0, movement: None, target: None };
        assert(self@.entities =~= Map::empty());
        assert(self@.inventory =~= Map::empty());
        assert(self@.messages =~= Seq::empty());
    }

    fn replace_inventory(&mut self, items: Vec<Item>)
        requires
            old(self).wf(),
            items@.len() <= MAX_INVENTORY,
            inventory_replay_error(old(self)@, item_views(items@), Set::empty()) is None,
        ensures
            final(self)@ == spec_commit(old(self)@, EventView::InventoryReplay(item_views(items@))),
            final(self).wf(),
    {
        let ghost before = self@;
        let ghost all = item_views(items@);
        let mut inventory: BTreeMap<u64, Item> = BTreeMap::new();
        let mut generations = self.inventory_generations.clone();
        let mut i: usize = 0;
        assert(item_map_views(inventory@) =~= items_by_id(all.take(0)));
        assert(generations@ =~= before.inventory_generations.union_prefer_right(
            item_generations(all.take(0)),
        ));
        while i < items.len()
            invariant
                0 <= i <= items@.len(),
                all == item_views(items@),
                self@ == before,
                item_map_views(inventory@) == items_by_id(all.take(i as int)),
                generations@ == before.inventory_generations.union_prefer_right(
                    item_generations(all.take(i as int)),
                ),
            decreases items@.len() - i,
        {
            let item = items[i].clone();
            let id = item.handle.object_id;
            let generation = item.handle.object_generation;
            assert(all.take(i + 1).drop_last() =~= all.take(i as int));
            assert(all.take(i + 1).last() == item@);
            proof {
                lemma_item_views_insert(inventory@, id, item);
            }
            inventory.insert(id, item);
            generations.insert(id, generation);
            assert(generations@ =~= before.inventory_generations.union_prefer_right(
                item_generations(all.take(i + 1)),
            ));
            i = i + 1;
        }
        assert(all.take(i as int) =~= all);
        self.inventory = inventory;
        self.inventory_generations = generations;
        proof {
            lemma_replay_maps(all);
        }
    }

    fn commit(&mut self, event: Event)
        requires
            old(self).wf(),
            spec_preflight(old(self)@, event@) is Ok,
        ensures
            final(self)@ == spec_commit(old(self)@, event@),
            final(self).wf(),
    {
        let ghost before = self@;
        match event {
            Event::Connected => {
                self.reset_transient();
                self.phase = Phase::Connected;
            },
            Event::EnteredWorld => {
                self.phase = Phase::Playing;
            },
            Event::Disconnected => {
                self.reset_transient();
                self.phase = Phase::Disconnected;
            },
            Event::PlayerStats { health, health_max } => {
                self.player.health = health;
                self.player.health_max = health_max;
            },
            Event::MapReset { map_generation } => {
                self.map_generation = map_generation;
                self.entities = BTreeMap::new();
                self.entity_generations = BTreeMap::new();
                self.player.target = None;
                assert(self@.entities =~= Map::empty());
            },
            Event::EntityUpsert(entity) => {
                let ghost view = entity@;
                let id = entity.handle.object_id;
                let generation = entity.handle.object_generation;
                proof {
                    lemma_entity_views_insert(self.entities@, id, entity);
                }
                self.entity_generations.insert(id, generation);
                self.entities.insert(id, entity);
                proof {
                    if !before.entities.contains_key(id) {
                        assert(self@.entities.dom() =~= before.entities.dom().insert(id));
                    } else {
                        assert(self@.entities.dom() =~= before.entities.dom());
                    }
                }
            },
            Event::EntityRemoved(handle) => {
                proof {
                    lemma_entity_views_remove(self.entities@, handle.object_id);
                }
                self.entities.remove(&handle.object_id);
                if self.player.target == Some(handle) {
                    self.player.target = None;
                }
                proof {
                    assert(self@.entities.dom() =~= before.entities.dom().remove(handle.object_id));
                }
            },
            Event::InventoryReplay(items) => {
                self.replace_inventory(items);
            },
            Event::DialogReplaced(text) => {
                self.dialog = text;
            },
            Event::QuestReplaced(text) => {
                self.quest = text;
            },
            Event::Message(text) => {
                let ghost view = text@;
                if self.messages.len() == MAX_MESSAGES {
                    self.messages.pop_front();
                }
                self.messages.push_back(text);
                assert(self@.messages =~= append_message(before.messages, view));
            },
            Event::ActionResolved { request_id } => {
                self.pending.remove(&request_id);
                proof {
                    assert(self@.pending.dom() =~= before.pending.dom().remove(request_id));
                }
            },
        }
    }

    /// Applies one revisioned event atomically: either every check passes and
    /// the event is committed, or the session is left exactly as it was.
    pub fn reduce(&mut self, incoming: RevisionedEvent) -> (result: Result<(), SessionError>)
        requires
            old(self).wf(),
        ensures
            final(self).wf(),
            match spec_reduce(old(self)@, incoming@) {
                Ok(next) => result == Ok::<(), SessionError>(()) && final(self)@ == next,
                Err(error) => result == Err::<(), SessionError>(error) && final(self)@ == old(
                    self,
                )@,
            },
    {
        if self.revision == u64::MAX || incoming.revision != self.revision + 1 {
            return Err(SessionError::RevisionGap);
        }
        let connecting = match incoming.event {
            Event::Connected => true,
            _ => false,
        };
        if connecting {
            if self.phase != Phase::Disconnected || incoming.session_generation <= self.generation {
                return Err(SessionError::InvalidTransition);
            }
        } else if incoming.session_generation != self.generation {
            return Err(SessionError::StaleSession);
        }
        match self.preflight(&incoming.event) {
            Err(error) => {
                return Err(error);
            },
            Ok(()) => {},
        }
        let revision = incoming.revision;
        let session_generation = incoming.session_generation;
        self.commit(incoming.event);
        self.revision = revision;
        if connecting {
            self.generation = session_generation;
        }
        Ok(())
    }

    fn validate_action(&self, action: &Action) -> (result: Result<(), SessionError>)
        ensures
            result == spec_validate_action(self@, *action),
    {
        let handle = match action {
            Action::Cast { spell_id, target } => {
                if *spell_id == 0 {
                    return Err(SessionError::InvalidValue);
                }
                *target
            },
            Action::Reply { choice_id } => {
                if *choice_id == 0 {
                    return Err(SessionError::InvalidValue);
                }
                None
            },
            Action::SelectCharacter { character_id } => {
                if *character_id == 0 {
                    return Err(SessionError::InvalidValue);
                }
                None
            },
            Action::Drop { item, quantity } => {
                if *quantity == 0 {
                    return Err(SessionError::InvalidValue);
                }
                Some(*item)
            },
            Action::Target(value) => Some(*value),
            Action::Attack(value) => Some(*value),
            Action::Apply(value) => Some(*value),
            Action::Get(value) => Some(*value),
            Action::Talk(value) => Some(*value),
            Action::Move(_) => None,
            Action::Stop => None,
        };
        match handle {
            Some(value) => {
                if !self.handle_is_current(value) && !self.inventory_handle_is_current(value) {
                    return Err(SessionError::StaleHandle);
                }
                Ok(())
            },
            None => Ok(()),
        }
    }

    /// Hands a locally valid action request to the sink. Only when the sink
    /// accepts it does the session record local intent (movement, target,
    /// pending request); every rejection leaves the session unchanged, and a
    /// local rejection leaves the sink untouched.
    pub fn dispatch<S: ActionSink>(&mut self, request: ActionRequest, sink: &mut S) -> (result:
        Result<(), SessionError>)
        requires
            old(self).wf(),
        ensures
            final(self).wf(),
            match spec_dispatch_check(old(self)@, request) {
                Err(error) => result == Err::<(), SessionError>(error) && final(self)@ == old(
                    self,
                )@ && *final(sink) == *old(sink),
                Ok(()) => {
                    &&& (result == Ok::<(), SessionError>(()) && final(self)@ == spec_dispatch_commit(
                        old(self)@,
                        request,
                    )) || (result == Err::<(), SessionError>(SessionError::TransportRejected)
                        && final(self)@ == old(self)@)
                    &&& S::obeys_sink_spec() ==> final(sink).answered(
                        old(sink),
                        request,
                        result is Ok,
                    )
                },
            },
    {
        let selecting = match request.action {
            Action::SelectCharacter { .. } => true,
            _ => false,
        };
        let phase_is_valid = (selecting && self.phase == Phase::Connected) || (!selecting
            && self.phase == Phase::Playing);
        if !phase_is_valid {
            return Err(SessionError::InvalidTransition);
        }
        if request.id == 0 || self.pending.contains_key(&request.id) {
            return Err(SessionError::DuplicateRequest);
        }
        if self.pending.len() == MAX_PENDING_ACTIONS {
            return Err(SessionError::PendingLimit);
        }
        match self.validate_action(&request.action) {
            Err(error) => {
                return Err(error);
            },
            Ok(()) => {},
        }
        let sent = sink.send(&request);
        self.record_dispatch(request, sent)
    }

    /// Records the sink's answer to a locally valid request: on acceptance the
    /// movement, target and pending intent; on rejection nothing, reported as
    /// a transport rejection.
    pub fn record_dispatch(&mut self, request: ActionRequest, sent: Result<(), SessionError>) -> (result:
        Result<(), SessionError>)
        requires
            old(self).wf(),
            spec_dispatch_check(old(self)@, request) is Ok,
        ensures
            final(self).wf(),
            match sent {
                Ok(()) => result == Ok::<(), SessionError>(()) && final(self)@
                    == spec_dispatch_commit(old(self)@, request),
                Err(_) => result == Err::<(), SessionError>(SessionError::TransportRejected)
                    && final(self)@ == old(self)@,
            },
    {
        if sent.is_err() {
            return Err(SessionError::TransportRejected);
        }
        let ghost before = self@;
        match request.action {
            Action::Move(direction) => {
                self.player.movement = Some(direction);
            },
            Action::Stop => {
                self.player.movement = None;
            },
            Action::Target(handle) => {
                self.player.target = Some(handle);
            },
            _ => {},
        }
        self.pending.insert(request.id, request.action);
        proof {
            assert(self@.pending.dom() =~= before.pending.dom().insert(request.id));
        }
        Ok(())
    }

    /// An immutable copy of the current state: objects ordered by identifier,
    /// messages oldest first, and the identifiers of pending requests in order.
    pub fn snapshot(&self) -> (snapshot: Snapshot)
        ensures
            snapshot_matches(snapshot, self@),
            self.wf() ==> snapshot_ordered(snapshot),
    {
        let mut entities: Vec<Entity> = Vec::new();
        let values = self.entities.values();
        let ghost entity_keys = choose|keys: Seq<u64>|
            {
                &&& increasing_seq(keys)
                &&& keys.to_set() == self.entities@.dom()
                &&& keys.no_duplicates()
                &&& IteratorSpec::remaining(&values) == keys.map(|i: int, k: u64| &self.entities@[k])
            };
        for entity in it: values
            invariant
                entities@.len() == it.index(),
                it.seq() == entity_keys.map(|i: int, k: u64| &self.entities@[k]),
                forall|j: int| 0 <= j < it.index() ==> #[trigger] entities@[j]@ == self.entities@[entity_keys[j]]@,
        {
            entities.push(entity.clone());
        }
        proof {
            lemma_increasing_is_strict(entity_keys);
            assert(entities@.len() == entity_keys.len());
            assert(self@.entities.dom() =~= self.entities@.dom());
            lemma_keys_in_order_is(self.entities@.dom(), entity_keys);
            assert(entities@.map_values(|entity: Entity| entity@) =~= values_in_key_order(self@.entities));
        }
        let mut inventory: Vec<Item> = Vec::new();
        let item_values = self.inventory.values();
        let ghost item_keys = choose|keys: Seq<u64>|
            {
                &&& increasing_seq(keys)
                &&& keys.to_set() == self.inventory@.dom()
                &&& keys.no_duplicates()
                &&& IteratorSpec::remaining(&item_values) == keys.map(
                    |i: int, k: u64| &self.inventory@[k],
                )
            };
        for item in it: item_values
            invariant
                inventory@.len() == it.index(),
                it.seq() == item_keys.map(|i: int, k: u64| &self.inventory@[k]),
                forall|j: int| 0 <= j < it.index() ==> #[trigger] inventory@[j]@ == self.inventory@[item_keys[j]]@,
        {
            inventory.push(item.clone());
        }
        proof {
            lemma_increasing_is_strict(item_keys);
            assert(inventory@.len() == item_keys.len());
            assert(self@.inventory.dom() =~= self.inventory@.dom());
            lemma_keys_in_order_is(self.inventory@.dom(), item_keys);
            assert(item_views(inventory@) =~= values_in_key_order(self@.inventory));
        }
        let mut pending_action_ids: Vec<u64> = Vec::new();
        let keys = self.pending.keys();
        let ghost pending_keys = IteratorSpec::remaining(&keys).map_values(|k: &u64| *k);
        proof {
            assert(pending_keys =~= IteratorSpec::remaining(&keys).unref());
        }
        for id in it: keys
            invariant
                pending_action_ids@.len() == it.index(),
                it.seq().map_values(|k: &u64| *k) == pending_keys,
                forall|j: int| 0 <= j < it.index() ==> #[trigger] pending_action_ids@[j] == pending_keys[j],
        {
            pending_action_ids.push(*id);
        }
        proof {
            lemma_increasing_refs_are_strict(IteratorSpec::remaining(&keys));
            assert(pending_keys.to_set() =~= self.pending@.dom());
            assert(pending_action_ids@.len() == pending_keys.len());
            lemma_keys_in_order_is(self.pending@.dom(), pending_keys);
            assert(pending_action_ids@ =~= pending_keys);
        }
        let mut messages: Vec<String> = Vec::new();
        let mut i: usize = 0;
        while i < self.messages.len()
            invariant
                0 <= i <= self.messages@.len(),
                messages@.len() == i,
                forall|j: int| 0 <= j < i ==> #[trigger] messages@[j]@ == self.messages@[j]@,
            decreases self.messages@.len() - i,
        {
            messages.push(self.messages[i].clone());
            i = i + 1;
        }
        assert(text_views(messages@) =~= self@.messages);
        proof {
            if self.wf() {
                assert forall|i: int, j: int| 0 <= i < j < entities@.len() implies entities@[i].handle.object_id
                    < entities@[j].handle.object_id by {
                    let views = entities@.map_values(|entity: Entity| entity@);
                    assert(keys_in_order(self@.entities.dom()) == entity_keys);
                    assert(views[i] == values_in_key_order(self@.entities)[i]);
                    assert(views[j] == values_in_key_order(self@.entities)[j]);
                    assert(entity_keys.to_set().contains(entity_keys[i]));
                    assert(entity_keys.to_set().contains(entity_keys[j]));
                    assert(self@.entities.contains_key(entity_keys[i]));
                    assert(self@.entities.contains_key(entity_keys[j]));
                    assert(entity_keys[i] < entity_keys[j]);
                }
                assert forall|i: int, j: int| 0 <= i < j < inventory@.len() implies inventory@[i].handle.object_id
                    < inventory@[j].handle.object_id by {
                    let views = item_views(inventory@);
                    assert(keys_in_order(self@.inventory.dom()) == item_keys);
                    assert(views[i] == values_in_key_order(self@.inventory)[i]);
                    assert(views[j] == values_in_key_order(self@.inventory)[j]);
                    assert(item_keys.to_set().contains(item_keys[i]));
                    assert(item_keys.to_set().contains(item_keys[j]));
                    assert(self@.inventory.contains_key(item_keys[i]));
                    assert(self@.inventory.contains_key(item_keys[j]));
                    assert(item_keys[i] < item_keys[j]);
                }
            }
        }
        Snapshot {
            revision: self.revision,
            session_generation: self.generation,
            map_generation: self.map_generation,
            phase: self.phase,
            player: self.player,
            entities,
            inventory,
            dialog: self.dialog.clone(),
            quest: self.quest.clone(),
            messages,
            pending_action_ids,
        }
    }
}

/// Once a request may be dispatched in the current phase under a fresh
/// identifier with room for it, its action is checked: a zero spell, choice,
/// character or quantity is an invalid value, and otherwise an action on an
/// object that is neither a current entity nor a current inventory item is
/// stale; any other action passes.
pub proof fn law_dispatch_checks_action_inputs(s: SessionView, request: ActionRequest)
    requires
        (request.action is SelectCharacter && s.phase == Phase::Connected) || (
        !(request.action is SelectCharacter) && s.phase == Phase::Playing),
        request.id != 0,
        !s.pending.contains_key(request.id),
        s.pending.len() != MAX_PENDING_ACTIONS,
    ensures
        spec_dispatch_check(s, request) == spec_validate_action(s, request.action),
        request.action matches Action::Cast { spell_id: 0, .. } ==> spec_dispatch_check(s, request)
            == Err::<(), SessionError>(SessionError::InvalidValue),
        request.action matches Action::Reply { choice_id: 0 } ==> spec_dispatch_check(s, request)
            == Err::<(), SessionError>(SessionError::InvalidValue),
        request.action matches Action::SelectCharacter { character_id: 0 } ==> spec_dispatch_check(
            s,
            request,
        ) == Err::<(), SessionError>(SessionError::InvalidValue),
        request.action matches Action::Drop { quantity: 0, .. } ==> spec_dispatch_check(s, request)
            == Err::<(), SessionError>(SessionError::InvalidValue),
        spec_validate_action(s, request.action) != Err::<(), SessionError>(
            SessionError::InvalidValue,
        ) ==> match action_handle(request.action) {
            Some(handle) => spec_dispatch_check(s, request) == (if handle_is_current(s, handle)
                || inventory_handle_is_current(s, handle) {
                Ok::<(), SessionError>(())
            } else {
                Err(SessionError::StaleHandle)
            }),
            None => spec_dispatch_check(s, request) == Ok::<(), SessionError>(()),
        },
{
}

/// Revisions advance by exactly one: an accepted event carries the revision
/// after the current one, and the new state records it.
pub proof fn law_accepted_event_advances_revision_by_one(s: SessionView, incoming: RevisionedEventView)
    requires
        spec_reduce(s, incoming) is Ok,
    ensures
        incoming.revision == s.revision + 1,
        spec_reduce(s, incoming)->Ok_0.revision == s.revision + 1,
{
}

/// Events never create local intent: the pending requests after any accepted
/// event are among those before it.
pub proof fn law_events_never_add_pending_intent(s: SessionView, incoming: RevisionedEventView)
    requires
        spec_reduce(s, incoming) is Ok,
    ensures
        spec_reduce(s, incoming)->Ok_0.pending.dom().subset_of(s.pending.dom()),
{
}

/// A disconnect clears all transient intent and state: objects, inventory,
/// pending requests, text, messages and player movement.
pub proof fn law_disconnect_clears_transient_state(s: SessionView, incoming: RevisionedEventView)
    requires
        incoming.event is Disconnected,
        spec_reduce(s, incoming) is Ok,
    ensures
        ({
            let next = spec_reduce(s, incoming)->Ok_0;
            &&& next.phase == Phase::Disconnected
            &&& next.entities.is_empty()
            &&& next.inventory.is_empty()
            &&& next.pending.is_empty()
            &&& next.messages.len() == 0
            &&& next.dialog.len() == 0
            &&& next.quest.len() == 0
            &&& next.player.movement is None
            &&& next.player.target is None
        }),
{
}

/// A retired entity generation can never be re-inserted: an upsert for an
/// absent object whose generation is not newer than the last one seen is
/// rejected.
pub proof fn law_retired_entity_generation_is_rejected(
    s: SessionView,
    incoming: RevisionedEventView,
)
    requires
        incoming.event is EntityUpsert,
        !s.entities.contains_key(incoming.event->EntityUpsert_0.handle.object_id),
        s.entity_generations.contains_key(incoming.event->EntityUpsert_0.handle.object_id),
        incoming.event->EntityUpsert_0.handle.object_generation <= s.entity_generations[incoming.event->EntityUpsert_0.handle.object_id],
    ensures
        spec_reduce(s, incoming) is Err,
{
}

/// An inventory replay that holds an item whose generation was retired (the
/// item is no longer held and its generation is not newer than the last one
/// seen) is rejected as a whole.
pub proof fn law_retired_item_generation_is_rejected(
    s: SessionView,
    items: Seq<ItemView>,
    seen: Set<u64>,
    k: int,
)
    requires
        0 <= k < items.len(),
        !s.inventory.contains_key(items[k].handle.object_id),
        s.inventory_generations.contains_key(items[k].handle.object_id),
        items[k].handle.object_generation <= s.inventory_generations[items[k].handle.object_id],
    ensures
        inventory_replay_error(s, items, seen) is Some,
    decreases k,
{
    if k > 0 {
        law_retired_item_generation_is_rejected(s, items.drop_first(), seen.insert(items[0].handle.object_id), k - 1);
    }
}

/// Handles do not survive a map reset: after an accepted reset no handle is
/// current and no target is held.
pub proof fn law_map_reset_invalidates_handles(
    s: SessionView,
    incoming: RevisionedEventView,
    handle: ObjectHandle,
)
    requires
        incoming.event is MapReset,
        spec_reduce(s, incoming) is Ok,
    ensures
        !handle_is_current(spec_reduce(s, incoming)->Ok_0, handle),
        spec_reduce(s, incoming)->Ok_0.player.target is None,
{
}

/// Removing an entity also drops it as the player's target: after an accepted
/// removal the entity is gone and the player does not target it; a target on
/// anything else is kept.
pub proof fn law_removed_entity_is_no_longer_targeted(
    s: SessionView,
    incoming: RevisionedEventView,
    handle: ObjectHandle,
)
    requires
        spec_reduce(s, incoming) is Ok,
        incoming.event == EventView::EntityRemoved(handle),
    ensures
        spec_reduce(s, incoming)->Ok_0.player.target != Some(handle),
        !spec_reduce(s, incoming)->Ok_0.entities.contains_key(handle.object_id),
        s.player.target != Some(handle) ==> spec_reduce(s, incoming)->Ok_0.player.target
            == s.player.target,
{
}

/// What an accepted request does to the player: a move sets the movement to
/// its direction, a stop ends any movement, a target request sets the target,
/// and nothing else changes movement or target; the request becomes pending.
pub proof fn law_accepted_request_sets_local_intent(s: SessionView, request: ActionRequest)
    ensures
        ({
            let next = spec_dispatch_commit(s, request);
            &&& next.player.movement == match request.action {
                Action::Move(direction) => Some(direction),
                Action::Stop => None,
                _ => s.player.movement,
            }
            &&& next.player.target == match request.action {
                Action::Target(handle) => Some(handle),
                _ => s.player.target,
            }
            &&& next.player.health == s.player.health
            &&& next.player.health_max == s.player.health_max
            &&& next.pending.contains_key(request.id)
            &&& next.pending[request.id] == request.action
            &&& forall|id: u64| id != request.id ==> #[trigger] next.pending.contains_key(id)
                == s.pending.contains_key(id)
        }),
        request.action == Action::Stop ==> spec_dispatch_commit(s, request).player.movement is None,
{
}

/// What each accepted world event does to what it names: a map reset empties
/// the entities, drops the target and moves to the new map generation; an
/// upserted entity is stored under its own identifier; player statistics
/// are recorded; dialog and quest text are replaced; a message becomes the
/// newest one, dropping the oldest only at the message limit; a resolved
/// request is no longer pending. The revision becomes the event's.
pub proof fn law_accepted_events_record_what_they_name(s: SessionView, incoming: RevisionedEventView)
    requires
        spec_reduce(s, incoming) is Ok,
    ensures
        ({
            let next = spec_reduce(s, incoming)->Ok_0;
            &&& next.revision == incoming.revision
            &&& match incoming.event {
                EventView::MapReset { map_generation } => {
                    &&& next.map_generation == map_generation
                    &&& next.entities.dom().is_empty()
                    &&& next.player.target is None
                },
                EventView::EntityUpsert(entity) => {
                    &&& next.entities.contains_key(entity.handle.object_id)
                    &&& next.entities[entity.handle.object_id] == entity
                },
                EventView::PlayerStats { health, health_max } => {
                    &&& next.player.health == health
                    &&& next.player.health_max == health_max
                },
                EventView::DialogReplaced(text) => next.dialog == text,
                EventView::QuestReplaced(text) => next.quest == text,
                EventView::Message(text) => {
                    &&& next.messages.len() > 0
                    &&& next.messages.last() == text
                    &&& next.messages.len() == if s.messages.len() == MAX_MESSAGES {
                        s.messages.len()
                    } else {
                        s.messages.len() + 1
                    }
                    &&& next.messages.drop_last() == if s.messages.len() == MAX_MESSAGES {
                        s.messages.drop_first()
                    } else {
                        s.messages
                    }
                },
                EventView::ActionResolved { request_id } => !next.pending.contains_key(request_id),
                _ => true,
            }
        }),
{
    let next = spec_reduce(s, incoming)->Ok_0;
    match incoming.event {
        EventView::MapReset { .. } => {
            assert(next.entities.dom() =~= Set::<u64>::empty());
        },
        EventView::Message(text) => {
            if s.messages.len() == MAX_MESSAGES {
                assert(s.messages.drop_first().push(text).drop_last() =~= s.messages.drop_first());
            } else {
                assert(s.messages.push(text).drop_last() =~= s.messages);
            }
        },
        _ => {},
    }
}

} // verus!
