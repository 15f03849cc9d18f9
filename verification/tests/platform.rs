use atrinik_client::actions::{Direction, SemanticInput};
use atrinik_client::platform::{
    cache_root_parts, semantic_input, AudioCategory, AudioDevice, CachePlatform, Clipboard,
    HeadlessAudio, HeadlessClipboard, HeadlessClock, HeadlessPlatform, MonotonicClock,
    PlatformError, PlatformPathError, PlatformTransition, RawInput,
};

const MILLISECOND: u128 = 1_000_000;
const SECOND: u128 = 1_000_000_000;

#[test]
fn devices_have_identical_navigation_semantics() {
    assert_eq!(
        semantic_input(RawInput::KeyLeft),
        semantic_input(RawInput::ControllerLeft)
    );
}

#[test]
fn every_direction_and_command_maps_to_one_semantic_input() {
    assert_eq!(
        semantic_input(RawInput::ControllerUp),
        SemanticInput::Navigate(Direction::North)
    );
    assert_eq!(
        semantic_input(RawInput::KeyRight),
        SemanticInput::Navigate(Direction::East)
    );
    assert_eq!(
        semantic_input(RawInput::KeyDown),
        semantic_input(RawInput::ControllerDown)
    );
    assert_eq!(semantic_input(RawInput::Activate), SemanticInput::Activate);
    assert_eq!(semantic_input(RawInput::Cancel), SemanticInput::Cancel);
    assert_eq!(semantic_input(RawInput::Text), SemanticInput::Text);
}

#[test]
fn lifecycle_handles_resize_hotplug_loss_and_shutdown() {
    let mut platform = HeadlessPlatform::default();
    for event in [
        PlatformTransition::WindowCreated,
        PlatformTransition::Resized {
            logical_width: 1_200,
            logical_height: 800,
            scale_milli: 1_500,
        },
        PlatformTransition::Fullscreen(true),
        PlatformTransition::Focused(true),
        PlatformTransition::InputConnected,
        PlatformTransition::InputLost,
        PlatformTransition::AudioConnected,
        PlatformTransition::AudioLost,
        PlatformTransition::Shutdown,
    ] {
        platform.apply(event).expect("transition");
    }
    assert!(platform.state().shutdown);
    assert_eq!(
        platform.apply(PlatformTransition::WindowCreated),
        Err(PlatformError::InvalidTransition)
    );
}

#[test]
fn event_queue_fails_before_state_mutation() {
    let mut platform = HeadlessPlatform::new(1).expect("capacity");
    platform
        .apply(PlatformTransition::WindowCreated)
        .expect("first event");
    let before = platform.state();
    assert_eq!(
        platform.apply(PlatformTransition::Fullscreen(true)),
        Err(PlatformError::EventQueueFull)
    );
    assert_eq!(platform.state(), before);
}

#[test]
fn headless_services_enforce_time_text_audio_and_device_loss_bounds() {
    let mut clock = HeadlessClock::default();
    clock.advance(5 * MILLISECOND).expect("time");
    assert_eq!(clock.elapsed_nanos(), 5 * MILLISECOND);
    assert_eq!(
        clock.advance(86_401 * SECOND),
        Err(PlatformError::InvalidTransition)
    );
    let mut clipboard = HeadlessClipboard::default();
    clipboard.write_text("text").expect("clipboard");
    assert_eq!(clipboard.read_text().expect("read"), "text");
    assert_eq!(
        clipboard.write_text("bad\0text"),
        Err(PlatformError::InvalidTransition)
    );
    let mut audio = HeadlessAudio::default();
    audio
        .set_category_volume(AudioCategory::Music, 500)
        .expect("volume");
    assert_eq!(audio.volume(AudioCategory::Music), 500);
    audio.lose();
    assert_eq!(
        audio.set_category_volume(AudioCategory::Music, 400),
        Err(PlatformError::InvalidTransition)
    );
    audio.restore();
    assert!(audio.connected());
}

#[test]
fn resize_errors_are_classified_and_queue_preserves_order() {
    let mut platform = HeadlessPlatform::new(8).expect("capacity");
    assert_eq!(
        platform.apply(PlatformTransition::Resized {
            logical_width: 10,
            logical_height: 10,
            scale_milli: 1_000
        }),
        Err(PlatformError::InvalidTransition)
    );
    platform
        .apply(PlatformTransition::WindowCreated)
        .expect("window");
    assert_eq!(platform.state().width, 800);
    assert_eq!(platform.state().height, 600);
    assert_eq!(
        platform.apply(PlatformTransition::Resized {
            logical_width: 0,
            logical_height: 10,
            scale_milli: 1_000
        }),
        Err(PlatformError::InvalidDimensions)
    );
    assert_eq!(
        platform.apply(PlatformTransition::Resized {
            logical_width: 10,
            logical_height: 10,
            scale_milli: 249
        }),
        Err(PlatformError::InvalidScale)
    );
    assert_eq!(
        platform.apply(PlatformTransition::Resized {
            logical_width: 16_385,
            logical_height: 10,
            scale_milli: 1_000
        }),
        Err(PlatformError::InvalidTransition)
    );
    platform
        .apply(PlatformTransition::Suspended(true))
        .expect("suspend");
    assert_eq!(platform.pop_event(), Some(PlatformTransition::WindowCreated));
    assert_eq!(platform.pop_event(), Some(PlatformTransition::Suspended(true)));
    assert_eq!(platform.pop_event(), None);
    assert!(HeadlessPlatform::new(0).is_err());
    assert!(HeadlessPlatform::new(4_097).is_err());
}

#[test]
fn shutdown_resets_state_and_cannot_repeat() {
    let mut platform = HeadlessPlatform::default();
    platform
        .apply(PlatformTransition::WindowCreated)
        .expect("window");
    platform
        .apply(PlatformTransition::InputConnected)
        .expect("input");
    platform.apply(PlatformTransition::Shutdown).expect("shutdown");
    let state = platform.state();
    assert!(state.shutdown && !state.window && !state.input_connected);
    assert_eq!(state.width, 0);
    assert_eq!(
        platform.apply(PlatformTransition::Shutdown),
        Err(PlatformError::InvalidTransition)
    );
    assert_eq!(
        platform.apply(PlatformTransition::Focused(true)),
        Err(PlatformError::InvalidTransition)
    );
}

#[test]
fn clock_rejects_overflow_and_audio_rejects_excess_volume() {
    let mut clock = HeadlessClock::default();
    clock.advance(86_400 * SECOND).expect("one day");
    assert_eq!(clock.elapsed_nanos(), 86_400 * SECOND);
    let mut audio = HeadlessAudio::default();
    assert_eq!(audio.volume(AudioCategory::Effects), 1_000);
    assert_eq!(
        audio.set_category_volume(AudioCategory::Effects, 1_001),
        Err(PlatformError::InvalidTransition)
    );
    assert_eq!(audio.volume(AudioCategory::Effects), 1_000);
    let mut clipboard = HeadlessClipboard::default();
    let too_long = "x".repeat(1_048_577);
    assert_eq!(
        clipboard.write_text(&too_long),
        Err(PlatformError::InvalidTransition)
    );
    assert_eq!(clipboard.read_text().expect("read"), "");
    assert_eq!(
        PlatformError::Native("gone".into()).message(),
        "SDL3 platform error: gone"
    );
}

#[test]
fn cache_root_parts_follow_each_platform_and_fail_without_environment() {
    assert_eq!(
        cache_root_parts(
            CachePlatform::MacOs,
            None,
            None,
            Some("/Users/player".into())
        ),
        Ok((
            "/Users/player".to_owned(),
            vec!["Library", "Caches", "Atrinik"]
        ))
    );
    assert_eq!(
        cache_root_parts(
            CachePlatform::Unix,
            None,
            Some("/cache/player".into()),
            Some("/home/player".into())
        ),
        Ok(("/cache/player".to_owned(), vec!["atrinik"]))
    );
    assert_eq!(
        cache_root_parts(CachePlatform::Unix, None, None, Some("/home/player".into())),
        Ok(("/home/player".to_owned(), vec![".cache", "atrinik"]))
    );
    assert_eq!(
        cache_root_parts(
            CachePlatform::Windows,
            Some("C:\\Users\\player\\AppData\\Local".into()),
            None,
            None
        ),
        Ok((
            "C:\\Users\\player\\AppData\\Local".to_owned(),
            vec!["Atrinik", "cache"]
        ))
    );
    assert_eq!(
        cache_root_parts(CachePlatform::Unix, None, None, None),
        Err(PlatformPathError::MissingEnvironment)
    );
    assert_eq!(
        cache_root_parts(CachePlatform::Windows, None, None, None),
        Err(PlatformPathError::MissingEnvironment)
    );
}
