use frontend::browser::MediaCategory;
use frontend::player::{
    cc_toggle, controls_hidden, ended_action, next_repeat, playback_label, playback_of,
    release_gesture, repeat_class, repeat_of, starts_animation, swipe, tap_zone, video_tap,
    viewer_kind, with_bottom, with_top, EndedAction, RepeatMode, SpeedGesture, TapState, TapZone,
};

fn top(m: u8) -> bool {
    m == 1 || m == 2
}

fn bottom(m: u8) -> bool {
    m == 1 || m == 3
}

#[test]
fn subtitle_boxes() {
    for m in 0..6u8 {
        for c in [false, true] {
            let t = with_top(m, c);
            assert_eq!(top(t), c);
            assert_eq!(bottom(t), bottom(m));
            let b = with_bottom(m, c);
            assert_eq!(bottom(b), c);
            assert_eq!(top(b), top(m));
        }
    }
    assert_eq!(with_top(1, false), 3);
    assert_eq!(with_top(0, true), 2);
    assert_eq!(with_bottom(2, true), 1);
    assert_eq!(with_bottom(1, false), 2);
    assert_eq!(with_bottom(0, false), 0);
}

#[test]
fn cc_button() {
    assert_eq!(cc_toggle(0), 1);
    assert_eq!(cc_toggle(1), 0);
    assert_eq!(cc_toggle(3), 0);
    assert_eq!(cc_toggle(cc_toggle(0)), 0);
}

#[test]
fn repeat_modes() {
    for m in [RepeatMode::Off, RepeatMode::All, RepeatMode::One] {
        assert_eq!(next_repeat(next_repeat(next_repeat(m))), m);
        assert_eq!(repeat_of(&playback_of(m)), m);
    }
    assert_eq!(next_repeat(RepeatMode::Off), RepeatMode::All);
    assert_eq!(repeat_of("next"), RepeatMode::All);
    assert_eq!(repeat_of("loop"), RepeatMode::One);
    assert_eq!(repeat_of("once"), RepeatMode::Off);
    assert_eq!(repeat_of("weird"), RepeatMode::Off);
    assert_eq!(playback_of(RepeatMode::All), "next");
    assert_eq!(playback_label("once"), "Một lần");
    assert_eq!(playback_label("loop"), "Lặp lại");
    assert_eq!(playback_label("next"), "Tiếp theo");
    assert_eq!(playback_label("x"), "");
    assert_eq!(repeat_class(RepeatMode::One, false), "mode-btn yt-repeat-atom is-one ");
    assert_eq!(repeat_class(RepeatMode::Off, true), "mode-btn yt-repeat-atom is-off is-animating");
    assert!(starts_animation(RepeatMode::Off));
    assert!(!starts_animation(RepeatMode::All));
}

#[test]
fn clip_endings() {
    assert_eq!(ended_action("next"), EndedAction::GoNext);
    assert_eq!(ended_action("loop"), EndedAction::Restart);
    assert_eq!(ended_action("once"), EndedAction::Stay);
    assert_eq!(ended_action(&playback_of(RepeatMode::All)), EndedAction::GoNext);
}

#[test]
fn viewer_kinds() {
    assert_eq!(viewer_kind("a/b.WEBM"), MediaCategory::Video);
    assert_eq!(viewer_kind("a/b.wav"), MediaCategory::Audio);
    assert_eq!(viewer_kind("a/b.png"), MediaCategory::Image);
    assert_eq!(viewer_kind("a/b.unknown"), MediaCategory::Image);
}

#[test]
fn swipes() {
    assert_eq!(swipe(300, 100, 200, 110), Some(true));
    assert_eq!(swipe(100, 100, 200, 90), Some(false));
    assert_eq!(swipe(100, 100, 150, 100), None);
    assert_eq!(swipe(100, 100, 160, 200), None);
    assert_eq!(swipe(100, 0, 0, 100), None);
    assert_eq!(swipe(i32::MIN, 0, i32::MAX, 0), Some(false));
}

#[test]
fn tap_zones() {
    assert_eq!(tap_zone(10, 100), TapZone::Left);
    assert_eq!(tap_zone(33, 100), TapZone::Middle);
    assert_eq!(tap_zone(67, 100), TapZone::Middle);
    assert_eq!(tap_zone(68, 100), TapZone::Right);
    assert_eq!(tap_zone(0, 0), TapZone::Middle);
    assert_eq!(tap_zone(5, 0), TapZone::Right);
    assert_eq!(tap_zone(-5, 0), TapZone::Left);
    // The same decisions as the float ratio.
    for w in [1i32, 3, 7, 99, 100, 640, 1920] {
        for x in -5..(w + 5) {
            let ratio = x as f64 / w as f64;
            let expected = if ratio < 0.33 {
                TapZone::Left
            } else if ratio > 0.67 {
                TapZone::Right
            } else {
                TapZone::Middle
            };
            assert_eq!(tap_zone(x, w), expected, "x={} w={}", x, w);
        }
    }
}

#[test]
fn taps_on_the_video() {
    let s0 = TapState { last_tap_ms: 0, tap_count: 0 };
    // A long press is no tap.
    let o = video_tap(s0, 10_000, 9_000, Some(TapZone::Middle), false);
    assert!(!o.toggle_play && !o.fullscreen && o.state == s0);
    // A single tap plays or pauses.
    let o1 = video_tap(s0, 10_000, 9_950, Some(TapZone::Middle), false);
    assert!(o1.toggle_play && !o1.flip_controls);
    assert_eq!(o1.state, TapState { last_tap_ms: 10_000, tap_count: 1 });
    // A second tap in the middle undoes it and goes fullscreen.
    let o2 = video_tap(o1.state, 10_200, 10_150, Some(TapZone::Middle), false);
    assert!(o2.toggle_play && o2.fullscreen);
    assert_eq!(o2.state.tap_count, 2);
    // A third quick tap on the right seeks without undoing anything.
    let o3 = video_tap(o2.state, 10_400, 10_390, Some(TapZone::Right), false);
    assert_eq!(o3.seek, 10);
    assert!(!o3.toggle_play && !o3.fullscreen);
    // On a touch screen a tap shows or hides the controls.
    let t1 = video_tap(s0, 50_000, 50_000, Some(TapZone::Left), true);
    assert!(t1.flip_controls && !t1.toggle_play);
    let t2 = video_tap(t1.state, 50_100, 50_050, Some(TapZone::Left), true);
    assert!(t2.flip_controls);
    assert_eq!(t2.seek, -10);
    // Taps far apart each start a new run.
    let far = video_tap(t2.state, 60_000, 60_000, Some(TapZone::Left), true);
    assert_eq!(far.state.tap_count, 1);
    assert_eq!(far.seek, 0);
}

#[test]
fn speed_hold() {
    assert_eq!(release_gesture(SpeedGesture::Holding), (SpeedGesture::Idle, true));
    assert_eq!(release_gesture(SpeedGesture::Idle), (SpeedGesture::Idle, false));
    assert!(controls_hidden(true, SpeedGesture::Holding));
    assert!(controls_hidden(false, SpeedGesture::Idle));
    assert!(!controls_hidden(true, SpeedGesture::Idle));
}
