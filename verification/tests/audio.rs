use space_warior::sound::{sound_key, SoundId, SoundManager};

#[test]
fn sound_keys_are_distinct() {
    let theme = sound_key(SoundId::Theme);
    let boom = sound_key(SoundId::ExplosionSound);
    let laser = sound_key(SoundId::LaserSound);
    assert_ne!(theme, boom);
    assert_ne!(theme, laser);
    assert_ne!(boom, laser);
}

#[test]
fn start_issues_engine_call_only_on_the_edge() {
    let mut sm = SoundManager::new();
    let theme = sound_key(SoundId::Theme);
    assert!(!sm.is_playing(theme));
    assert!(sm.start_playing(theme));
    assert!(sm.is_playing(theme));
    // A second start while playing is deduplicated.
    assert!(!sm.start_playing(theme));
    assert!(sm.is_playing(theme));
}

#[test]
fn stop_issues_engine_call_only_while_playing() {
    let mut sm = SoundManager::new();
    let theme = sound_key(SoundId::Theme);
    assert!(!sm.stop_playing(theme));
    sm.start_playing(theme);
    assert!(sm.stop_playing(theme));
    assert!(!sm.is_playing(theme));
    assert!(!sm.stop_playing(theme));
}

#[test]
fn volume_adjustment_goes_out_only_while_playing() {
    let mut sm = SoundManager::new();
    let theme = sound_key(SoundId::Theme);
    assert!(!sm.set_volume(theme));
    sm.start_playing(theme);
    assert!(sm.set_volume(theme));
}

#[test]
fn sounds_track_independently() {
    let mut sm = SoundManager::new();
    let theme = sound_key(SoundId::Theme);
    let laser = sound_key(SoundId::LaserSound);
    sm.start_playing(theme);
    assert!(!sm.is_playing(laser));
    sm.start_playing(laser);
    sm.stop_playing(theme);
    assert!(sm.is_playing(laser));
    assert!(!sm.is_playing(theme));
}
