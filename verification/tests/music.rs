use physics_rendering_engine::audio::{
    copy_context, next_footstep, same_context, FadeAction, FadeState, MusicContext, MusicState, MuteVolume,
};
use physics_rendering_engine::terrain::Biome;

fn playing(ctx: MusicContext) -> MusicState {
    let mut s = MusicState::new();
    s.current = Some(ctx);
    s
}

#[test]
fn first_music_starts_at_once() {
    let mut s = MusicState::new();
    let started = s.plan_change(MusicContext::Biome(Biome::Plains), true);
    assert_eq!(started, Some(MusicContext::Biome(Biome::Plains)));
    assert_eq!(s.current, Some(MusicContext::Biome(Biome::Plains)));
    assert_eq!(s.fade, FadeState::Idle);
    assert!(s.pending.is_none());
}

#[test]
fn same_music_is_left_alone() {
    let mut s = playing(MusicContext::Location("Castle".to_string()));
    assert_eq!(s.plan_change(MusicContext::Location("Castle".to_string()), false), None);
    assert_eq!(s.current, Some(MusicContext::Location("Castle".to_string())));
    assert_eq!(s.fade, FadeState::Idle);
}

#[test]
fn new_music_over_a_silent_sink_starts_at_once() {
    let mut s = playing(MusicContext::Biome(Biome::Plains));
    let started = s.plan_change(MusicContext::Biome(Biome::Desert), true);
    assert_eq!(started, Some(MusicContext::Biome(Biome::Desert)));
    assert_eq!(s.current, Some(MusicContext::Biome(Biome::Desert)));
    assert_eq!(s.fade, FadeState::Idle);
}

#[test]
fn crossfade_to_new_music() {
    let mut s = playing(MusicContext::Biome(Biome::Plains));
    assert_eq!(s.plan_change(MusicContext::Biome(Biome::Desert), false), None);
    assert_eq!(s.fade, FadeState::FadingOut);
    assert_eq!(s.pending, Some(MusicContext::Biome(Biome::Desert)));
    assert_eq!(s.current, Some(MusicContext::Biome(Biome::Plains)));

    // A change asked for mid-fade waits.
    assert_eq!(s.plan_change(MusicContext::Biome(Biome::Dungeon), false), None);
    assert_eq!(s.pending, Some(MusicContext::Biome(Biome::Desert)));

    assert!(matches!(s.fade_step(false, false), FadeAction::Continue));
    assert_eq!(s.fade, FadeState::FadingOut);

    match s.fade_step(true, false) {
        FadeAction::SwitchTrack(Some(ctx)) => assert_eq!(ctx, MusicContext::Biome(Biome::Desert)),
        other => panic!("expected a switch, got {:?}", other),
    }
    assert_eq!(s.current, Some(MusicContext::Biome(Biome::Desert)));
    assert_eq!(s.fade, FadeState::FadingIn);
    assert!(s.pending.is_none());

    assert!(matches!(s.fade_step(false, false), FadeAction::Continue));
    assert!(matches!(s.fade_step(true, false), FadeAction::FadeInDone));
    assert_eq!(s.fade, FadeState::Idle);
    assert_eq!(s.current, Some(MusicContext::Biome(Biome::Desert)));
}

#[test]
fn finished_track_is_replayed() {
    let mut s = playing(MusicContext::Biome(Biome::Forest));
    match s.fade_step(false, true) {
        FadeAction::Replay(ctx) => assert_eq!(ctx, MusicContext::Biome(Biome::Forest)),
        other => panic!("expected a replay, got {:?}", other),
    }
    assert_eq!(s.current, Some(MusicContext::Biome(Biome::Forest)));
    assert!(matches!(s.fade_step(false, false), FadeAction::Continue));
    let mut silent = MusicState::new();
    assert!(matches!(silent.fade_step(true, true), FadeAction::Continue));
}

#[test]
fn mute_toggles() {
    let mut s = playing(MusicContext::Biome(Biome::Plains));
    assert!(s.volume_applies());
    assert_eq!(s.toggle_mute(), MuteVolume::Silence);
    assert!(s.muted);
    assert!(!s.volume_applies());
    assert_eq!(s.toggle_mute(), MuteVolume::Restore);
    assert!(!s.muted);

    s.plan_change(MusicContext::Biome(Biome::Desert), false);
    assert!(!s.volume_applies());
    assert_eq!(s.toggle_mute(), MuteVolume::Silence);
    assert_eq!(s.toggle_mute(), MuteVolume::Keep);
    assert_eq!(s.fade, FadeState::FadingOut);
}

#[test]
fn contexts_compare_by_name() {
    let a = MusicContext::Location("Tavern".to_string());
    assert!(same_context(&a, &MusicContext::Location("Tavern".to_string())));
    assert!(!same_context(&a, &MusicContext::Location("Castle".to_string())));
    assert!(!same_context(&a, &MusicContext::Biome(Biome::Plains)));
    assert!(same_context(&MusicContext::Biome(Biome::Crystal), &MusicContext::Biome(Biome::Crystal)));
    assert_eq!(copy_context(&a), a);
}

#[test]
fn footsteps_take_turns() {
    let mut i = 0usize;
    assert_eq!(next_footstep(false, 2, 2, &mut i), Some((false, 0)));
    assert_eq!(next_footstep(false, 2, 2, &mut i), Some((false, 1)));
    assert_eq!(next_footstep(true, 2, 2, &mut i), Some((true, 0)));
    assert_eq!(i, 3);
    // Running over sand, which has one sound for both.
    assert_eq!(next_footstep(true, 1, 1, &mut i), Some((true, 0)));
    assert_eq!(i, 4);
}

#[test]
fn footsteps_without_running_sounds_walk() {
    let mut i = 5usize;
    assert_eq!(next_footstep(true, 2, 0, &mut i), Some((false, 1)));
    assert_eq!(i, 6);
}

#[test]
fn no_footstep_sounds() {
    let mut i = 9usize;
    assert_eq!(next_footstep(true, 0, 0, &mut i), None);
    assert_eq!(next_footstep(false, 0, 3, &mut i), None);
    assert_eq!(i, 9);
}

#[test]
fn footstep_index_wraps() {
    let mut i = usize::MAX;
    assert_eq!(next_footstep(false, 2, 0, &mut i), Some((false, usize::MAX % 2)));
    assert_eq!(i, 0);
}
