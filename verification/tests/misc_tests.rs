use spottedcat::audio::{MixLayout, Mixer, MixerError, PlayRoster, PlaybackCommand, SoundIds, TrackFormat, TrackPlayback};
use spottedcat::entity::{Entity, EntityIds};
use spottedcat::font::load_font_from_bytes;
use spottedcat::keycode::Modifiers;
use spottedcat::platform::{current_local_epoch_day, has_runtime_permission, normalize_asset_path};

fn fmt(rate: u32, channels: u16, len: usize) -> TrackFormat {
    TrackFormat { rate, channels, len }
}

#[test]
fn mixer_layout_takes_longest_track() {
    let layout = Mixer::mix_layout(&[fmt(44100, 2, 10), fmt(44100, 2, 31), fmt(44100, 2, 4)]);
    assert_eq!(layout, Ok(MixLayout { rate: 44100, channels: 2, len: 31, frames: 15 }));
}

#[test]
fn mixer_errors_come_in_order() {
    assert_eq!(Mixer::mix_layout(&[]), Err(MixerError::NoSamplesToMix));
    assert_eq!(Mixer::mix_layout(&[fmt(48000, 0, 4)]), Err(MixerError::InvalidInputSample));
    assert_eq!(
        Mixer::mix_layout(&[fmt(48000, 2, 4), fmt(44100, 1, 4)]),
        Err(MixerError::InconsistentSampleRates)
    );
    assert_eq!(
        Mixer::mix_layout(&[fmt(48000, 2, 4), fmt(48000, 1, 4), fmt(44100, 2, 4)]),
        Err(MixerError::InconsistentChannelCounts)
    );
}

#[test]
fn playback_commands_drive_the_track_state() {
    let mut p = TrackPlayback::new(100);
    p.handle_command(PlaybackCommand::Play);
    p.handle_command(PlaybackCommand::Seek(40));
    assert_eq!((p.state, p.current_sample_index), (PlaybackCommand::Play, 40));
    p.handle_command(PlaybackCommand::Seek(4000));
    assert_eq!(p.current_sample_index, 100);
    p.handle_command(PlaybackCommand::Pause);
    assert_eq!(p.current_sample_index, 100);
    assert!(!p.is_stopped());
    p.handle_command(PlaybackCommand::Stop);
    assert!(p.is_stopped());
    assert_eq!(p.current_sample_index, 0);
}

#[test]
fn test_system_add_entity() {
    let mut ids = EntityIds::new();
    let mut entities: Vec<Entity> = Vec::new();
    let mut components: Vec<u32> = Vec::new();
    let entity = Entity::new(&mut ids);
    entities.push(entity);
    components.extend(vec![1u32]);
    assert_eq!(entities.len(), 1);
    assert_eq!(components.len(), 1);
}

#[test]
fn test_system_remove_entity() {
    let mut ids = EntityIds::new();
    let mut entities: Vec<Entity> = Vec::new();
    let entity = Entity::new(&mut ids);
    entities.push(entity);
    if let Some(index) = entities.iter().position(|&e| e == entity) {
        entities.remove(index);
    }
    assert_eq!(entities.len(), 0);
}

#[test]
fn entities_get_successive_ids() {
    let mut ids = EntityIds::new();
    let a = Entity::new(&mut ids);
    let b = Entity::new(&mut ids);
    assert_eq!((a.id(), b.id()), (0, 1));
    assert_ne!(a, b);
}

#[test]
fn entities_of_one_source_are_fresh() {
    let mut ids = EntityIds::new();
    let mut seen = std::collections::HashSet::new();
    for _ in 0..10_000 {
        assert!(seen.insert(Entity::new(&mut ids)));
    }
}

#[test]
fn runtime_permission_decisions() {
    assert_eq!(has_runtime_permission("motion", 3), Ok(true));
    assert_eq!(has_runtime_permission("motion", 2), Ok(false));
    assert_eq!(
        has_runtime_permission("camera", 3),
        Err("unsupported iOS permission: camera".to_string())
    );
}

#[test]
fn epoch_day_is_never_negative() {
    assert_eq!(current_local_epoch_day(Some(-5)), Some(0));
    assert_eq!(current_local_epoch_day(Some(19_000)), Some(19_000));
    assert_eq!(current_local_epoch_day(None), None);
}

#[test]
fn font_bytes_are_copied() {
    assert_eq!(load_font_from_bytes(&[1, 2, 3]), vec![1, 2, 3]);
}

#[test]
fn modifiers_report_each_key() {
    let m = Modifiers { shift: false, ctrl: true, alt: false, super_key: true };
    assert!(m.is_ctrl() && m.is_super() && !m.is_shift() && !m.is_alt() && m.any());
    assert!(!Modifiers::new().any());
}

#[test]
fn play_roster_tracks_sound_lifecycles() {
    let mut r = PlayRoster::new();
    let a = r.start(false);
    let b = r.start(true);
    assert_eq!((a, b), (1, 2));
    assert!(r.is_playing(a));
    assert!(!r.is_playing(b));
    r.resume(b);
    assert!(r.is_playing(b));
    r.pause(a);
    assert!(!r.is_playing(a));
    r.stop(b);
    assert!(!r.is_playing(b));
    r.retain_unfinished();
    r.resume(a);
    assert!(r.is_playing(a));
    assert!(!r.is_playing(99));
}

#[test]
fn sound_ids_start_at_one() {
    let mut ids = SoundIds::new();
    assert_eq!(ids.allocate(), 1);
    assert_eq!(ids.allocate(), 2);
}

#[test]
fn asset_paths_lose_bundle_prefixes() {
    assert_eq!(normalize_asset_path("./assets/img/cat.png"), "img/cat.png");
    assert_eq!(normalize_asset_path("assets/a.ogg"), "a.ogg");
    assert_eq!(normalize_asset_path("./x"), "x");
    assert_eq!(normalize_asset_path("b"), "b");
    assert_eq!(normalize_asset_path("./"), "");
    assert_eq!(normalize_asset_path("assets"), "assets");
    assert_eq!(normalize_asset_path("data/assets/x"), "data/assets/x");
}

#[test]
fn playing_track_walks_its_samples_then_stops() {
    let mut p = TrackPlayback::new(2);
    assert_eq!(p.next_sample_index(), None);
    p.handle_command(PlaybackCommand::Play);
    assert_eq!(p.next_sample_index(), Some(0));
    assert_eq!(p.next_sample_index(), Some(1));
    assert_eq!(p.next_sample_index(), None);
    assert!(p.is_stopped());
    assert_eq!(p.next_sample_index(), None);
}
