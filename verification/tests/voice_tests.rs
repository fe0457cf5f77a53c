use std::sync::atomic::{AtomicBool, Ordering};
use std::sync::Arc;
use tui_piano::{SustainSource, VoiceFrame, RELEASE_FADE_SAMPLES, SAMPLE_RATE};

#[test]
fn release_fade_is_point_fifteen_seconds() {
    assert_eq!(RELEASE_FADE_SAMPLES, (0.15f32 * SAMPLE_RATE as f32) as u64);
}

#[test]
fn sustained_voice_plays_at_full_level_until_released() {
    let flag = Arc::new(AtomicBool::new(false));
    let mut v = SustainSource::new(60, flag.clone());
    assert_eq!(v.midi(), 60);
    for t in 0..1000u64 {
        assert_eq!(v.next_frame(), Some(VoiceFrame { t, fade_elapsed: 0 }));
    }
}

#[test]
fn released_voice_fades_then_ends() {
    let flag = Arc::new(AtomicBool::new(false));
    let mut v = SustainSource::new(69, flag.clone());
    for t in 0..10u64 {
        assert_eq!(v.next_frame(), Some(VoiceFrame { t, fade_elapsed: 0 }));
    }
    flag.store(true, Ordering::SeqCst);
    assert_eq!(v.next_frame(), Some(VoiceFrame { t: 10, fade_elapsed: 0 }));
    for k in 1..RELEASE_FADE_SAMPLES {
        assert_eq!(v.next_frame(), Some(VoiceFrame { t: 10 + k, fade_elapsed: k }));
    }
    assert_eq!(v.next_frame(), None);
    assert_eq!(v.next_frame(), None);
    flag.store(false, Ordering::SeqCst);
    assert_eq!(v.next_frame(), None);
}

#[test]
fn step_ignores_flag_after_release() {
    let flag = Arc::new(AtomicBool::new(false));
    let mut v = SustainSource::new(60, flag);
    assert_eq!(v.step(true), Some(VoiceFrame { t: 0, fade_elapsed: 0 }));
    assert_eq!(v.step(false), Some(VoiceFrame { t: 1, fade_elapsed: 1 }));
    assert_eq!(v.step(true), Some(VoiceFrame { t: 2, fade_elapsed: 2 }));
}
