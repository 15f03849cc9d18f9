//! The platform boundary: input mapping, the window and device lifecycle,
//! and deterministic headless substitutes for time, clipboard and audio.
use crate::actions::{Direction, SemanticInput};
use vstd::prelude::*;
use vstd::string::{StringExecFns, StringSliceAdditionalSpecFns};

verus! {

/// Why the platform cache directory could not be found.
#[derive(Clone, Copy, Debug, PartialEq, Eq, Structural)]
pub enum PlatformPathError {
    MissingEnvironment,
    RelativeEnvironment,
}

impl PlatformPathError {
    /// Human-readable description of the error.
    pub fn message(&self) -> (text: &'static str)
        ensures
            text == platform_path_error_message(*self),
    {
        match self {
            PlatformPathError::MissingEnvironment => "platform cache directory is unavailable",
            PlatformPathError::RelativeEnvironment => "platform cache directory is not absolute",
        }
    }
}

/// The platforms whose cache directories differ.
#[derive(Clone, Copy, Debug, PartialEq, Eq, Structural)]
pub enum CachePlatform {
    Windows,
    MacOs,
    Unix,
}

/// Where a platform keeps the client cache: the environment value it starts
/// from and the directories below it.
pub open spec fn spec_cache_root_parts(
    platform: CachePlatform,
    local_app_data: Option<Seq<char>>,
    xdg_cache_home: Option<Seq<char>>,
    home: Option<Seq<char>>,
) -> Result<(Seq<char>, Seq<Seq<char>>), PlatformPathError> {
    match platform {
        CachePlatform::Windows => match local_app_data {
            Some(base) => Ok((base, seq!["Atrinik"@, "cache"@])),
            None => Err(PlatformPathError::MissingEnvironment),
        },
        CachePlatform::MacOs => match home {
            Some(base) => Ok((base, seq!["Library"@, "Caches"@, "Atrinik"@])),
            None => Err(PlatformPathError::MissingEnvironment),
        },
        CachePlatform::Unix => match xdg_cache_home {
            Some(base) => Ok((base, seq!["atrinik"@])),
            None => match home {
                Some(base) => Ok((base, seq![".cache"@, "atrinik"@])),
                None => Err(PlatformPathError::MissingEnvironment),
            },
        },
    }
}

/// The environment value a platform's cache directory starts from and the
/// directories below it; joining them into a path, and refusing a relative
/// one, is the caller's.
pub fn cache_root_parts(
    platform: CachePlatform,
    local_app_data: Option<String>,
    xdg_cache_home: Option<String>,
    home: Option<String>,
) -> (result: Result<(String, Vec<&'static str>), PlatformPathError>)
    ensures
        match spec_cache_root_parts(
            platform,
            crate::directory_model::option_text(local_app_data),
            crate::directory_model::option_text(xdg_cache_home),
            crate::directory_model::option_text(home),
        ) {
            Ok((base, parts)) => result is Ok && result->Ok_0.0@ == base && result->Ok_0.1@.map_values(
                |part: &str| part@,
            ) == parts,
            Err(error) => result == Err::<(String, Vec<&'static str>), PlatformPathError>(error),
        },
{
    let mut parts: Vec<&'static str> = Vec::new();
    let base = match platform {
        CachePlatform::Windows => match local_app_data {
            Some(base) => {
                parts.push("Atrinik");
                parts.push("cache");
                base
            },
            None => {
                return Err(PlatformPathError::MissingEnvironment);
            },
        },
        CachePlatform::MacOs => match home {
            Some(base) => {
                parts.push("Library");
                parts.push("Caches");
                parts.push("Atrinik");
                base
            },
            None => {
                return Err(PlatformPathError::MissingEnvironment);
            },
        },
        CachePlatform::Unix => match xdg_cache_home {
            Some(base) => {
                parts.push("atrinik");
                base
            },
            None => match home {
                Some(base) => {
                    parts.push(".cache");
                    parts.push("atrinik");
                    base
                },
                None => {
                    return Err(PlatformPathError::MissingEnvironment);
                },
            },
        },
    };
    proof {
        let views = parts@.map_values(|part: &str| part@);
        match platform {
            CachePlatform::Windows => {
                assert(views =~= seq!["Atrinik"@, "cache"@]);
            },
            CachePlatform::MacOs => {
                assert(views =~= seq!["Library"@, "Caches"@, "Atrinik"@]);
            },
            CachePlatform::Unix => {
                if xdg_cache_home is Some {
                    assert(views =~= seq!["atrinik"@]);
                } else {
                    assert(views =~= seq![".cache"@, "atrinik"@]);
                }
            },
        }
    }
    Ok((base, parts))
}

/// A raw input from a keyboard or controller.
#[derive(Clone, Copy, Debug, PartialEq, Eq, Structural)]
pub enum RawInput {
    KeyUp,
    KeyDown,
    KeyLeft,
    KeyRight,
    ControllerUp,
    ControllerDown,
    ControllerLeft,
    ControllerRight,
    Activate,
    Cancel,
    Text,
}

/// The semantic input of each raw input: both devices navigate alike.
pub open spec fn spec_semantic_input(input: RawInput) -> SemanticInput {
    match input {
        RawInput::KeyUp | RawInput::ControllerUp => SemanticInput::Navigate(Direction::North),
        RawInput::KeyRight | RawInput::ControllerRight => SemanticInput::Navigate(Direction::East),
        RawInput::KeyDown | RawInput::ControllerDown => SemanticInput::Navigate(Direction::South),
        RawInput::KeyLeft | RawInput::ControllerLeft => SemanticInput::Navigate(Direction::West),
        RawInput::Activate => SemanticInput::Activate,
        RawInput::Cancel => SemanticInput::Cancel,
        RawInput::Text => SemanticInput::Text,
    }
}

/// Maps a raw input to its semantic input.
pub fn semantic_input(input: RawInput) -> (semantic: SemanticInput)
    ensures
        semantic == spec_semantic_input(input),
{
    match input {
        RawInput::KeyUp | RawInput::ControllerUp => SemanticInput::Navigate(Direction::North),
        RawInput::KeyRight | RawInput::ControllerRight => SemanticInput::Navigate(Direction::East),
        RawInput::KeyDown | RawInput::ControllerDown => SemanticInput::Navigate(Direction::South),
        RawInput::KeyLeft | RawInput::ControllerLeft => SemanticInput::Navigate(Direction::West),
        RawInput::Activate => SemanticInput::Activate,
        RawInput::Cancel => SemanticInput::Cancel,
        RawInput::Text => SemanticInput::Text,
    }
}

/// Keyboard and controller navigation have identical semantics: each
/// direction of one device means what the same direction of the other means.
pub proof fn law_devices_share_navigation()
    ensures
        spec_semantic_input(RawInput::KeyUp) == spec_semantic_input(RawInput::ControllerUp),
        spec_semantic_input(RawInput::KeyDown) == spec_semantic_input(RawInput::ControllerDown),
        spec_semantic_input(RawInput::KeyLeft) == spec_semantic_input(RawInput::ControllerLeft),
        spec_semantic_input(RawInput::KeyRight) == spec_semantic_input(RawInput::ControllerRight),
{
}

/// An ordered window, input or audio lifecycle event.
#[derive(Clone, Copy, Debug, PartialEq, Eq, Structural)]
pub enum PlatformTransition {
    WindowCreated,
    Resized { logical_width: u32, logical_height: u32, scale_milli: u32 },
    Fullscreen(bool),
    Focused(bool),
    Suspended(bool),
    InputConnected,
    InputLost,
    AudioConnected,
    AudioLost,
    Shutdown,
}

/// Why a platform operation failed.
#[derive(Clone, Debug, PartialEq, Eq)]
pub enum PlatformError {
    InvalidDimensions,
    InvalidScale,
    InvalidTransition,
    InvalidCapacity,
    EventQueueFull,
    Native(String),
}

impl PlatformError {
    /// Human-readable description of the error.
    pub fn message(&self) -> (text: String)
        ensures
            text@ == platform_error_message(*self),
    {
        match self {
            PlatformError::InvalidDimensions => <String as StringExecFns>::from_str(
                "logical window dimensions are invalid",
            ),
            PlatformError::InvalidScale => <String as StringExecFns>::from_str(
                "display scale is invalid",
            ),
            PlatformError::InvalidTransition => <String as StringExecFns>::from_str(
                "platform lifecycle transition is invalid",
            ),
            PlatformError::InvalidCapacity => <String as StringExecFns>::from_str(
                "platform event capacity is outside supported bounds",
            ),
            PlatformError::EventQueueFull => <String as StringExecFns>::from_str(
                "platform event queue is full",
            ),
            PlatformError::Native(message) => {
                let mut text = <String as StringExecFns>::from_str("SDL3 platform error: ");
                text.append(message.as_str());
                text
            },
        }
    }
}

/// The human-readable description of each platform error; a native error
/// carries the platform's own text after a fixed prefix.
pub open spec fn platform_error_message(error: PlatformError) -> Seq<char> {
    match error {
        PlatformError::InvalidDimensions => "logical window dimensions are invalid"@,
        PlatformError::InvalidScale => "display scale is invalid"@,
        PlatformError::InvalidTransition => "platform lifecycle transition is invalid"@,
        PlatformError::InvalidCapacity => "platform event capacity is outside supported bounds"@,
        PlatformError::EventQueueFull => "platform event queue is full"@,
        PlatformError::Native(message) => "SDL3 platform error: "@ + message@,
    }
}

/// The fixed human-readable description of each path error.
pub open spec fn platform_path_error_message(error: PlatformPathError) -> &'static str {
    match error {
        PlatformPathError::MissingEnvironment => "platform cache directory is unavailable",
        PlatformPathError::RelativeEnvironment => "platform cache directory is not absolute",
    }
}

/// Nanoseconds in a day: the longest single step of a headless clock.
pub const MAXIMUM_CLOCK_STEP_NANOS: u128 = 86400000000000;
/// The longest span a clock can hold, in nanoseconds: the largest
/// `std::time::Duration`.
pub const MAXIMUM_ELAPSED_NANOS: u128 = 18446744073709551615999999999;

/// A monotonic clock, read in nanoseconds since it started.
pub trait MonotonicClock {
    fn elapsed_nanos(&self) -> u128;
}

/// Reads and writes clipboard text.
pub trait Clipboard {
    fn read_text(&self) -> Result<String, PlatformError>;

    fn write_text(&mut self, value: &str) -> Result<(), PlatformError>;
}

/// A categorized audio output.
pub trait AudioDevice {
    fn set_category_volume(&mut self, category: AudioCategory, volume_milli: u16) -> Result<
        (),
        PlatformError,
    >;

    fn connected(&self) -> bool;
}

/// A clock that only moves when told to.
#[derive(Clone, Copy, Debug)]
pub struct HeadlessClock {
    elapsed: u128,
}

impl HeadlessClock {
    /// The time the clock shows, in nanoseconds.
    pub closed spec fn elapsed_spec(&self) -> u128 {
        self.elapsed
    }

    /// Advances the clock by at most a day; a longer step, or one past the
    /// longest span a clock can hold, is refused and leaves it unchanged.
    pub fn advance(&mut self, delta_nanos: u128) -> (result: Result<(), PlatformError>)
        ensures
            if delta_nanos > MAXIMUM_CLOCK_STEP_NANOS || old(self).elapsed_spec() + delta_nanos
                > MAXIMUM_ELAPSED_NANOS {
                result == Err::<(), PlatformError>(PlatformError::InvalidTransition)
                    && final(self).elapsed_spec() == old(self).elapsed_spec()
            } else {
                result == Ok::<(), PlatformError>(()) && final(self).elapsed_spec()
                    == old(self).elapsed_spec() + delta_nanos
            },
    {
        if delta_nanos > MAXIMUM_CLOCK_STEP_NANOS {
            return Err(PlatformError::InvalidTransition);
        }
        if self.elapsed > MAXIMUM_ELAPSED_NANOS || MAXIMUM_ELAPSED_NANOS - self.elapsed
            < delta_nanos {
            return Err(PlatformError::InvalidTransition);
        }
        self.elapsed = self.elapsed + delta_nanos;
        Ok(())
    }
}

impl Default for HeadlessClock {
    fn default() -> (clock: HeadlessClock)
        ensures
            clock.elapsed_spec() == 0,
    {
        HeadlessClock { elapsed: 0 }
    }
}

impl MonotonicClock for HeadlessClock {
    fn elapsed_nanos(&self) -> (nanos: u128)
        ensures
            nanos == self.elapsed_spec(),
    {
        self.elapsed
    }
}

/// Longest clipboard text, in bytes.
pub const MAXIMUM_CLIPBOARD_BYTES: usize = 1048576;

/// A clipboard held in memory.
#[derive(Clone, Debug)]
pub struct HeadlessClipboard {
    text: String,
}

impl HeadlessClipboard {
    /// The text the clipboard holds.
    pub closed spec fn text_spec(&self) -> Seq<char> {
        self.text@
    }
}

impl Default for HeadlessClipboard {
    fn default() -> (clipboard: HeadlessClipboard)
        ensures
            clipboard.text_spec() == Seq::<char>::empty(),
    {
        HeadlessClipboard { text: String::new() }
    }
}

/// Text that a clipboard accepts: at most a mebibyte of UTF-8, with no NUL
/// (in UTF-8 only NUL encodes to a zero byte).
pub open spec fn clipboard_text_ok(bytes: Seq<u8>) -> bool {
    bytes.len() <= MAXIMUM_CLIPBOARD_BYTES && forall|i: int| 0 <= i < bytes.len() ==> #[trigger] bytes[i]
        != 0u8
}

/// Whether text holds a NUL, found as a zero byte of its UTF-8.
fn has_nul(value: &str) -> (found: bool)
    ensures
        found == exists|i: int| 0 <= i < value.spec_bytes().len() && #[trigger] value.spec_bytes()[i]
            == 0u8,
{
    let bytes = value.as_bytes();
    let mut i: usize = 0;
    while i < bytes.len()
        invariant
            0 <= i <= bytes@.len(),
            bytes@ == value.spec_bytes(),
            forall|j: int| 0 <= j < i ==> bytes@[j] != 0u8,
        decreases bytes@.len() - i,
    {
        if bytes[i] == 0 {
            assert(value.spec_bytes()[i as int] == 0u8);
            return true;
        }
        i = i + 1;
    }
    false
}

impl Clipboard for HeadlessClipboard {
    /// The held text.
    fn read_text(&self) -> (result: Result<String, PlatformError>)
        ensures
            result is Ok && result->Ok_0@ == self.text_spec(),
    {
        Ok(self.text.clone())
    }

    /// Replaces the held text; refuses text over a mebibyte or holding NUL.
    fn write_text(&mut self, value: &str) -> (result: Result<(), PlatformError>)
        ensures
            if clipboard_text_ok(value.spec_bytes()) {
                result == Ok::<(), PlatformError>(()) && final(self).text_spec() == value@
            } else {
                result == Err::<(), PlatformError>(PlatformError::InvalidTransition)
                    && final(self).text_spec() == old(self).text_spec()
            },
    {
        if value.as_bytes().len() > MAXIMUM_CLIPBOARD_BYTES || has_nul(value) {
            return Err(PlatformError::InvalidTransition);
        }
        self.text = <String as StringExecFns>::from_str(value);
        Ok(())
    }
}

/// An audio category with its own volume.
#[derive(Clone, Copy, Debug, PartialEq, Eq, Structural)]
pub enum AudioCategory {
    Master,
    Music,
    Effects,
    Interface,
}

/// The position of a category's volume.
pub open spec fn category_index(category: AudioCategory) -> int {
    match category {
        AudioCategory::Master => 0,
        AudioCategory::Music => 1,
        AudioCategory::Effects => 2,
        AudioCategory::Interface => 3,
    }
}

fn category_slot(category: AudioCategory) -> (slot: usize)
    ensures
        slot == category_index(category),
{
    match category {
        AudioCategory::Master => 0,
        AudioCategory::Music => 1,
        AudioCategory::Effects => 2,
        AudioCategory::Interface => 3,
    }
}

/// Full volume, in thousandths.
pub const FULL_VOLUME_MILLI: u16 = 1000;

/// An audio device held in memory; every category starts at full volume.
#[derive(Clone, Debug)]
pub struct HeadlessAudio {
    connected: bool,
    volumes: [u16; 4],
}

impl HeadlessAudio {
    /// Whether the device is connected.
    pub closed spec fn connected_spec(&self) -> bool {
        self.connected
    }

    /// The volume of each category, by [`category_index`].
    pub closed spec fn volumes_spec(&self) -> Seq<u16> {
        self.volumes@
    }

    /// Loses the device.
    pub fn lose(&mut self)
        ensures
            !final(self).connected_spec(),
            final(self).volumes_spec() == old(self).volumes_spec(),
    {
        self.connected = false;
    }

    /// Restores the device.
    pub fn restore(&mut self)
        ensures
            final(self).connected_spec(),
            final(self).volumes_spec() == old(self).volumes_spec(),
    {
        self.connected = true;
    }

    /// The volume of a category, in thousandths.
    pub fn volume(&self, category: AudioCategory) -> (volume: u16)
        ensures
            volume == self.volumes_spec()[category_index(category)],
    {
        self.volumes[category_slot(category)]
    }
}

impl Default for HeadlessAudio {
    fn default() -> (audio: HeadlessAudio)
        ensures
            audio.connected_spec(),
            audio.volumes_spec() == seq![FULL_VOLUME_MILLI, FULL_VOLUME_MILLI, FULL_VOLUME_MILLI, FULL_VOLUME_MILLI],
    {
        let audio = HeadlessAudio { connected: true, volumes: [1000u16, 1000u16, 1000u16, 1000u16] };
        assert(audio.volumes@ =~= seq![FULL_VOLUME_MILLI, FULL_VOLUME_MILLI, FULL_VOLUME_MILLI, FULL_VOLUME_MILLI]);
        audio
    }
}

impl AudioDevice for HeadlessAudio {
    /// Sets a category's volume; refused while disconnected or above full
    /// volume, leaving every volume unchanged.
    fn set_category_volume(&mut self, category: AudioCategory, volume_milli: u16) -> (result: Result<
        (),
        PlatformError,
    >)
        ensures
            if !old(self).connected_spec() || volume_milli > FULL_VOLUME_MILLI {
                result == Err::<(), PlatformError>(PlatformError::InvalidTransition)
                    && final(self).volumes_spec() == old(self).volumes_spec()
            } else {
                result == Ok::<(), PlatformError>(()) && final(self).volumes_spec()
                    == old(self).volumes_spec().update(category_index(category), volume_milli)
            },
            final(self).connected_spec() == old(self).connected_spec(),
    {
        if !self.connected || volume_milli > FULL_VOLUME_MILLI {
            return Err(PlatformError::InvalidTransition);
        }
        self.volumes[category_slot(category)] = volume_milli;
        Ok(())
    }

    fn connected(&self) -> (connected: bool)
        ensures
            connected == self.connected_spec(),
    {
        self.connected
    }
}

/// What the platform currently is.
#[derive(Clone, Copy, Debug, PartialEq, Eq, Structural)]
pub struct PlatformState {
    pub window: bool,
    pub width: u32,
    pub height: u32,
    pub scale_milli: u32,
    pub fullscreen: bool,
    pub focused: bool,
    pub suspended: bool,
    pub input_connected: bool,
    pub audio_connected: bool,
    pub shutdown: bool,
}

/// The state before any event: no window, nothing connected.
pub open spec fn initial_platform_state() -> PlatformState {
    PlatformState {
        window: false,
        width: 0,
        height: 0,
        scale_milli: 0,
        fullscreen: false,
        focused: false,
        suspended: false,
        input_connected: false,
        audio_connected: false,
        shutdown: false,
    }
}

impl Default for PlatformState {
    fn default() -> (state: PlatformState)
        ensures
            state == initial_platform_state(),
    {
        PlatformState {
            window: false,
            width: 0,
            height: 0,
            scale_milli: 0,
            fullscreen: false,
            focused: false,
            suspended: false,
            input_connected: false,
            audio_connected: false,
            shutdown: false,
        }
    }
}

/// Largest logical window side.
pub const MAXIMUM_LOGICAL_SIDE: u32 = 16384;
/// Smallest display scale, in thousandths.
pub const MINIMUM_SCALE_MILLI: u32 = 250;
/// Largest display scale, in thousandths.
pub const MAXIMUM_SCALE_MILLI: u32 = 8000;
/// Most events a platform may hold.
pub const MAXIMUM_EVENT_CAPACITY: usize = 4096;
/// Events a default platform may hold.
pub const DEFAULT_EVENT_CAPACITY: usize = 256;

/// A resize a window accepts: nonzero sides of at most 16,384 logical units
/// and a scale between 250 and 8,000 thousandths.
pub open spec fn valid_resize(width: u32, height: u32, scale_milli: u32) -> bool {
    0 < width <= MAXIMUM_LOGICAL_SIDE && 0 < height <= MAXIMUM_LOGICAL_SIDE && MINIMUM_SCALE_MILLI
        <= scale_milli <= MAXIMUM_SCALE_MILLI
}

/// The state after an event, or why the event is refused: a window is created
/// once and never after shutdown; resizing, fullscreen and focus need a
/// window; suspension and device changes always apply; shutdown happens once
/// and resets everything else.
pub open spec fn spec_transition(state: PlatformState, transition: PlatformTransition) -> Result<
    PlatformState,
    PlatformError,
> {
    match transition {
        PlatformTransition::WindowCreated => if !state.window && !state.shutdown {
            Ok(PlatformState { window: true, width: 800, height: 600, scale_milli: 1000, ..state })
        } else {
            Err(PlatformError::InvalidTransition)
        },
        PlatformTransition::Resized { logical_width, logical_height, scale_milli } => if state.window
            && valid_resize(logical_width, logical_height, scale_milli) {
            Ok(
                PlatformState {
                    width: logical_width,
                    height: logical_height,
                    scale_milli,
                    ..state
                },
            )
        } else if logical_width == 0 || logical_height == 0 {
            Err(PlatformError::InvalidDimensions)
        } else if !(MINIMUM_SCALE_MILLI <= scale_milli <= MAXIMUM_SCALE_MILLI) {
            Err(PlatformError::InvalidScale)
        } else {
            Err(PlatformError::InvalidTransition)
        },
        PlatformTransition::Fullscreen(value) => if state.window {
            Ok(PlatformState { fullscreen: value, ..state })
        } else {
            Err(PlatformError::InvalidTransition)
        },
        PlatformTransition::Focused(value) => if state.window {
            Ok(PlatformState { focused: value, ..state })
        } else {
            Err(PlatformError::InvalidTransition)
        },
        PlatformTransition::Suspended(value) => Ok(PlatformState { suspended: value, ..state }),
        PlatformTransition::InputConnected => Ok(PlatformState { input_connected: true, ..state }),
        PlatformTransition::InputLost => Ok(PlatformState { input_connected: false, ..state }),
        PlatformTransition::AudioConnected => Ok(PlatformState { audio_connected: true, ..state }),
        PlatformTransition::AudioLost => Ok(PlatformState { audio_connected: false, ..state }),
        PlatformTransition::Shutdown => if !state.shutdown {
            Ok(PlatformState { shutdown: true, ..initial_platform_state() })
        } else {
            Err(PlatformError::InvalidTransition)
        },
    }
}

/// The state after an event, or why the event is refused.
pub fn transition_state(state: PlatformState, transition: PlatformTransition) -> (result: Result<
    PlatformState,
    PlatformError,
>)
    ensures
        result == spec_transition(state, transition),
{
    match transition {
        PlatformTransition::WindowCreated => if !state.window && !state.shutdown {
            Ok(PlatformState { window: true, width: 800, height: 600, scale_milli: 1000, ..state })
        } else {
            Err(PlatformError::InvalidTransition)
        },
        PlatformTransition::Resized { logical_width, logical_height, scale_milli } => {
            let scale_ok = MINIMUM_SCALE_MILLI <= scale_milli && scale_milli <= MAXIMUM_SCALE_MILLI;
            if state.window && logical_width > 0 && logical_height > 0 && logical_width
                <= MAXIMUM_LOGICAL_SIDE && logical_height <= MAXIMUM_LOGICAL_SIDE && scale_ok {
                Ok(
                    PlatformState {
                        width: logical_width,
                        height: logical_height,
                        scale_milli,
                        ..state
                    },
                )
            } else if logical_width == 0 || logical_height == 0 {
                Err(PlatformError::InvalidDimensions)
            } else if !scale_ok {
                Err(PlatformError::InvalidScale)
            } else {
                Err(PlatformError::InvalidTransition)
            }
        },
        PlatformTransition::Fullscreen(value) => if state.window {
            Ok(PlatformState { fullscreen: value, ..state })
        } else {
            Err(PlatformError::InvalidTransition)
        },
        PlatformTransition::Focused(value) => if state.window {
            Ok(PlatformState { focused: value, ..state })
        } else {
            Err(PlatformError::InvalidTransition)
        },
        PlatformTransition::Suspended(value) => Ok(PlatformState { suspended: value, ..state }),
        PlatformTransition::InputConnected => Ok(PlatformState { input_connected: true, ..state }),
        PlatformTransition::InputLost => Ok(PlatformState { input_connected: false, ..state }),
        PlatformTransition::AudioConnected => Ok(PlatformState { audio_connected: true, ..state }),
        PlatformTransition::AudioLost => Ok(PlatformState { audio_connected: false, ..state }),
        PlatformTransition::Shutdown => if !state.shutdown {
            Ok(PlatformState { shutdown: true, ..PlatformState::default() })
        } else {
            Err(PlatformError::InvalidTransition)
        },
    }
}

/// A deterministic platform: its state and the bounded queue of events it
/// accepted, in order.
pub struct HeadlessPlatform {
    state: PlatformState,
    events: std::collections::VecDeque<PlatformTransition>,
    capacity: usize,
}

/// Abstract value of a [`HeadlessPlatform`].
pub struct PlatformView {
    pub state: PlatformState,
    pub events: Seq<PlatformTransition>,
    pub capacity: usize,
}

impl View for HeadlessPlatform {
    type V = PlatformView;

    closed spec fn view(&self) -> PlatformView {
        PlatformView { state: self.state, events: self.events@, capacity: self.capacity }
    }
}

impl Default for HeadlessPlatform {
    fn default() -> (platform: HeadlessPlatform)
        ensures
            platform@.state == initial_platform_state(),
            platform@.events == Seq::<PlatformTransition>::empty(),
            platform@.capacity == DEFAULT_EVENT_CAPACITY,
    {
        HeadlessPlatform {
            state: PlatformState::default(),
            events: std::collections::VecDeque::new(),
            capacity: DEFAULT_EVENT_CAPACITY,
        }
    }
}

impl HeadlessPlatform {
    #[verifier::type_invariant]
    closed spec fn bounded(self) -> bool {
        &&& 1 <= self.capacity <= MAXIMUM_EVENT_CAPACITY
        &&& self.events@.len() <= self.capacity
    }

    /// A platform holding at most `capacity` events, between 1 and 4,096.
    pub fn new(capacity: usize) -> (result: Result<HeadlessPlatform, PlatformError>)
        ensures
            match result {
                Ok(platform) => 1 <= capacity <= MAXIMUM_EVENT_CAPACITY && platform@.state
                    == initial_platform_state() && platform@.events == Seq::<
                    PlatformTransition,
                >::empty() && platform@.capacity == capacity,
                Err(error) => !(1 <= capacity <= MAXIMUM_EVENT_CAPACITY) && error
                    == PlatformError::InvalidCapacity,
            },
    {
        if capacity < 1 || capacity > MAXIMUM_EVENT_CAPACITY {
            return Err(PlatformError::InvalidCapacity);
        }
        Ok(
            HeadlessPlatform {
                state: PlatformState::default(),
                events: std::collections::VecDeque::new(),
                capacity,
            },
        )
    }

    /// Applies an event: a full queue refuses it first; a refused event
    /// leaves the platform unchanged; an accepted one changes the state and
    /// is queued.
    pub fn apply(&mut self, transition: PlatformTransition) -> (result: Result<(), PlatformError>)
        ensures
            final(self)@.capacity == old(self)@.capacity,
            if old(self)@.events.len() == old(self)@.capacity {
                result == Err::<(), PlatformError>(PlatformError::EventQueueFull) && final(self)@.state
                    == old(self)@.state && final(self)@.events == old(self)@.events
            } else {
                match spec_transition(old(self)@.state, transition) {
                    Ok(state) => result == Ok::<(), PlatformError>(()) && final(self)@.state == state
                        && final(self)@.events == old(self)@.events.push(transition),
                    Err(error) => result == Err::<(), PlatformError>(error) && final(self)@.state
                        == old(self)@.state && final(self)@.events == old(self)@.events,
                }
            },
    {
        proof {
            use_type_invariant(&*self);
        }
        if self.events.len() == self.capacity {
            return Err(PlatformError::EventQueueFull);
        }
        let next = match transition_state(self.state, transition) {
            Ok(next) => next,
            Err(error) => {
                return Err(error);
            },
        };
        self.state = next;
        let mut events = std::collections::VecDeque::new();
        std::mem::swap(&mut events, &mut self.events);
        events.push_back(transition);
        std::mem::swap(&mut events, &mut self.events);
        Ok(())
    }

    /// The current state.
    pub fn state(&self) -> (state: PlatformState)
        ensures
            state == self@.state,
    {
        self.state
    }

    /// Removes the oldest queued event.
    pub fn pop_event(&mut self) -> (oldest: Option<PlatformTransition>)
        ensures
            final(self)@.state == old(self)@.state,
            final(self)@.capacity == old(self)@.capacity,
            old(self)@.events.len() == 0 ==> oldest == None::<PlatformTransition> && final(self)@.events
                == old(self)@.events,
            old(self)@.events.len() > 0 ==> oldest == Some(old(self)@.events[0]) && final(self)@.events
                == old(self)@.events.drop_first(),
    {
        proof {
            use_type_invariant(&*self);
        }
        let mut events = std::collections::VecDeque::new();
        std::mem::swap(&mut events, &mut self.events);
        let oldest = events.pop_front();
        std::mem::swap(&mut events, &mut self.events);
        oldest
    }
}

/// Shutdown is final: once shut down, no event brings a window back or
/// undoes the shutdown.
pub proof fn law_shutdown_is_final(state: PlatformState, transition: PlatformTransition)
    requires
        state.shutdown,
        !state.window,
    ensures
        spec_transition(state, transition) is Ok ==> spec_transition(state, transition)->Ok_0.shutdown
            && !spec_transition(state, transition)->Ok_0.window,
{
}

/// A window's geometry stays within bounds: every state reachable from the
/// initial one has, while it has a window, nonzero sides of at most 16,384
/// logical units and a scale between 250 and 8,000 thousandths.
pub proof fn law_window_geometry_stays_bounded(state: PlatformState, transition: PlatformTransition)
    requires
        state.window ==> valid_resize(state.width, state.height, state.scale_milli),
    ensures
        spec_transition(state, transition) is Ok ==> ({
            let next = spec_transition(state, transition)->Ok_0;
            next.window ==> valid_resize(next.width, next.height, next.scale_milli)
        }),
{
}

/// An accepted resize records exactly the requested geometry and leaves the
/// rest of the state alone; a resize is accepted only for an open window.
pub proof fn law_resize_records_requested_geometry(
    state: PlatformState,
    logical_width: u32,
    logical_height: u32,
    scale_milli: u32,
)
    ensures
        ({
            let result = spec_transition(
                state,
                PlatformTransition::Resized { logical_width, logical_height, scale_milli },
            );
            result is Ok ==> {
                let next = result->Ok_0;
                &&& state.window
                &&& next.width == logical_width
                &&& next.height == logical_height
                &&& next.scale_milli == scale_milli
                &&& next == PlatformState {
                    width: next.width,
                    height: next.height,
                    scale_milli: next.scale_milli,
                    ..state
                }
            }
        }),
        state.window && valid_resize(logical_width, logical_height, scale_milli) ==> spec_transition(
            state,
            PlatformTransition::Resized { logical_width, logical_height, scale_milli },
        ) is Ok,
{
}

/// What each accepted lifecycle event records: fullscreen, focus, suspension
/// and device presence take the event's value, a new window starts at the
/// default geometry, and a shutdown closes the window for good.
pub proof fn law_accepted_transitions_record_their_value(
    state: PlatformState,
    transition: PlatformTransition,
)
    ensures
        spec_transition(state, transition) is Ok ==> {
            let next = spec_transition(state, transition)->Ok_0;
            match transition {
                PlatformTransition::WindowCreated => next.window && !state.window && next.width
                    == 800 && next.height == 600 && next.scale_milli == 1000,
                PlatformTransition::Fullscreen(value) => next.fullscreen == value && state.window,
                PlatformTransition::Focused(value) => next.focused == value && state.window,
                PlatformTransition::Suspended(value) => next.suspended == value,
                PlatformTransition::InputConnected => next.input_connected,
                PlatformTransition::InputLost => !next.input_connected,
                PlatformTransition::AudioConnected => next.audio_connected,
                PlatformTransition::AudioLost => !next.audio_connected,
                PlatformTransition::Shutdown => next.shutdown && !next.window && !state.shutdown,
                PlatformTransition::Resized { .. } => true,
            }
        },
        state.shutdown ==> spec_transition(state, PlatformTransition::WindowCreated) is Err,
{
}

} // verus!
