//! Immutable presentation models derived from session snapshots.
use crate::actions::{Action, Direction};
use crate::session::{Phase, Snapshot};
use crate::text::{ascii_chars, decimal_digits, decimal_string, push_ascii};
use vstd::prelude::*;

verus! {

/// What the user interface shows of a session.
#[derive(Debug, PartialEq, Eq)]
pub struct UiModel {
    pub connected: bool,
    pub playing: bool,
    pub health_label: String,
    pub message_count: usize,
    pub can_act: bool,
}

/// The health label: current and maximum health, as `current / maximum`.
pub open spec fn health_label(health: u32, health_max: u32) -> Seq<char> {
    ascii_chars(decimal_digits(health as nat)) + seq![' ', '/', ' '] + ascii_chars(
        decimal_digits(health_max as nat),
    )
}

/// Derives the presentation model from a snapshot.
pub fn model(snapshot: &Snapshot) -> (ui: UiModel)
    ensures
        ui.connected == (snapshot.phase != Phase::Disconnected),
        ui.playing == (snapshot.phase == Phase::Playing),
        ui.health_label@ == health_label(snapshot.player.health, snapshot.player.health_max),
        ui.message_count == snapshot.messages@.len(),
        ui.can_act == (snapshot.phase == Phase::Playing),
{
    let mut label = decimal_string(snapshot.player.health as u64);
    let separator: [u8; 3] = [32u8, 47u8, 32u8];
    push_ascii(&mut label, &separator);
    let maximum = decimal_string(snapshot.player.health_max as u64);
    label.append(maximum.as_str());
    proof {
        assert(ascii_chars(separator@) =~= seq![' ', '/', ' ']);
    }
    UiModel {
        connected: snapshot.phase != Phase::Disconnected,
        playing: snapshot.phase == Phase::Playing,
        health_label: label,
        message_count: snapshot.messages.len(),
        can_act: snapshot.phase == Phase::Playing,
    }
}

/// The shared action for navigating in a direction.
pub fn navigation(direction: Direction) -> (action: Action)
    ensures
        action == Action::Move(direction),
{
    Action::Move(direction)
}

} // verus!
