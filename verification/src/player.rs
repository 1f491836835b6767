//! The decisions of the media viewer and of the video player: subtitle
//! placement, repeat modes, the end of a clip, swipes, and taps on the
//! video.
use vstd::prelude::*;

use crate::browser::{spec_media_category, media_category, MediaCategory};
use crate::text::{chars_of, eq_chars, lit};

verus! {

// ---------------------------------------------------------------------------
// Subtitle placement
// ---------------------------------------------------------------------------

/// Subtitle modes: 0 none, 1 top and bottom lines, 2 top lines only,
/// 3 bottom lines only.
pub open spec fn shows_top(mode: u8) -> bool {
    mode == 1 || mode == 2
}

pub open spec fn shows_bottom(mode: u8) -> bool {
    mode == 1 || mode == 3
}

/// The mode that shows the top lines when `top` and the bottom ones when `bottom`.
pub open spec fn mode_of(top: bool, bottom: bool) -> u8 {
    if top && bottom {
        1
    } else if top {
        2
    } else if bottom {
        3
    } else {
        0
    }
}

/// Whether the "top" box of the subtitle settings is checked.
pub fn top_lines_shown(mode: u8) -> (r: bool)
    ensures
        r == shows_top(mode),
{
    mode == 1 || mode == 2
}

/// Whether the "bottom" box of the subtitle settings is checked.
pub fn bottom_lines_shown(mode: u8) -> (r: bool)
    ensures
        r == shows_bottom(mode),
{
    mode == 1 || mode == 3
}

/// The mode after the "top" box of the subtitle settings is set to `checked`.
pub fn with_top(mode: u8, checked: bool) -> (r: u8)
    ensures
        r == mode_of(checked, shows_bottom(mode)),
{
    let bottom = mode == 1 || mode == 3;
    if checked && bottom {
        1
    } else if checked && !bottom {
        2
    } else if !checked && bottom {
        3
    } else {
        0
    }
}

/// The mode after the "bottom" box is set to `checked`.
pub fn with_bottom(mode: u8, checked: bool) -> (r: u8)
    ensures
        r == mode_of(shows_top(mode), checked),
{
    let top = mode == 1 || mode == 2;
    if top && checked {
        1
    } else if top && !checked {
        2
    } else if !top && checked {
        3
    } else {
        0
    }
}

/// The mode after a press on the CC button: subtitles off become both
/// lines, any other mode goes off.
pub fn cc_toggle(mode: u8) -> (r: u8)
    ensures
        r == (if mode == 0 {
            1u8
        } else {
            0u8
        }),
{
    if mode == 0 {
        1
    } else {
        0
    }
}

/// Setting one box of the subtitle settings shows what it says, keeps the
/// other box as it was, and the last setting of a box is the one that counts.
pub proof fn lemma_subtitle_boxes(mode: u8, a: bool, b: bool)
    ensures
        shows_top(mode_of(a, shows_bottom(mode))) == a,
        shows_bottom(mode_of(a, shows_bottom(mode))) == shows_bottom(mode),
        shows_bottom(mode_of(shows_top(mode), b)) == b,
        shows_top(mode_of(shows_top(mode), b)) == shows_top(mode),
        mode_of(b, shows_bottom(mode_of(a, shows_bottom(mode)))) == mode_of(b, shows_bottom(mode)),
        mode_of(shows_top(mode_of(shows_top(mode), a)), b) == mode_of(shows_top(mode), b),
{
}

/// The CC button turns subtitles on from off, and off from any other mode.
pub proof fn lemma_cc_toggle(mode: u8)
    ensures
        mode == 0 ==> shows_top(1) && shows_bottom(1),
        mode != 0 ==> !shows_top(0) && !shows_bottom(0),
{
}

// ---------------------------------------------------------------------------
// Repeat modes
// ---------------------------------------------------------------------------

#[derive(Clone, Copy, Debug, PartialEq, Eq, Structural)]
pub enum RepeatMode {
    Off,
    All,
    One,
}

pub open spec fn spec_next_repeat(m: RepeatMode) -> RepeatMode {
    match m {
        RepeatMode::Off => RepeatMode::All,
        RepeatMode::All => RepeatMode::One,
        RepeatMode::One => RepeatMode::Off,
    }
}

/// The mode after a press on the repeat button.
pub fn next_repeat(m: RepeatMode) -> (r: RepeatMode)
    ensures
        r == spec_next_repeat(m),
{
    match m {
        RepeatMode::Off => RepeatMode::All,
        RepeatMode::All => RepeatMode::One,
        RepeatMode::One => RepeatMode::Off,
    }
}

/// Three presses on the repeat button come back to the mode at the start.
pub proof fn lemma_repeat_cycle(m: RepeatMode)
    ensures
        spec_next_repeat(spec_next_repeat(spec_next_repeat(m))) == m,
        spec_next_repeat(m) != m,
{
}

/// The repeat mode shown for a folder's playback mode.
pub open spec fn spec_repeat_of(mode: Seq<char>) -> RepeatMode {
    if mode == "next"@ {
        RepeatMode::All
    } else if mode == "loop"@ {
        RepeatMode::One
    } else {
        RepeatMode::Off
    }
}

pub fn repeat_of(mode: &str) -> (r: RepeatMode)
    ensures
        r == spec_repeat_of(mode@),
{
    let m = chars_of(mode);
    if eq_chars(&m, &lit("next")) {
        RepeatMode::All
    } else if eq_chars(&m, &lit("loop")) {
        RepeatMode::One
    } else {
        RepeatMode::Off
    }
}

/// The playback mode a repeat mode is saved as.
pub open spec fn spec_playback_of(m: RepeatMode) -> Seq<char> {
    match m {
        RepeatMode::Off => "once"@,
        RepeatMode::All => "next"@,
        RepeatMode::One => "loop"@,
    }
}

pub fn playback_of(m: RepeatMode) -> (r: String)
    ensures
        r@ == spec_playback_of(m),
{
    match m {
        RepeatMode::Off => "once".to_string(),
        RepeatMode::All => "next".to_string(),
        RepeatMode::One => "loop".to_string(),
    }
}

proof fn lemma_playback_names_differ()
    ensures
        "once"@ != "next"@,
        "once"@ != "loop"@,
        "next"@ != "loop"@,
{
    reveal_strlit("once");
    reveal_strlit("next");
    reveal_strlit("loop");
    assert("once"@[0] != "next"@[0]);
    assert("once"@[0] != "loop"@[0]);
    assert("next"@[0] != "loop"@[0]);
}

/// A repeat mode saved as a playback mode is shown as itself again.
pub proof fn lemma_repeat_saved(m: RepeatMode)
    ensures
        spec_repeat_of(spec_playback_of(m)) == m,
{
    lemma_playback_names_differ();
}

/// The label of a playback mode in the settings menu.
pub open spec fn spec_playback_label(mode: Seq<char>) -> Seq<char> {
    if mode == "once"@ {
        "Một lần"@
    } else if mode == "loop"@ {
        "Lặp lại"@
    } else if mode == "next"@ {
        "Tiếp theo"@
    } else {
        Seq::empty()
    }
}

pub fn playback_label(mode: &str) -> (r: String)
    ensures
        r@ == spec_playback_label(mode@),
{
    let m = chars_of(mode);
    if eq_chars(&m, &lit("once")) {
        "Một lần".to_string()
    } else if eq_chars(&m, &lit("loop")) {
        "Lặp lại".to_string()
    } else if eq_chars(&m, &lit("next")) {
        "Tiếp theo".to_string()
    } else {
        String::new()
    }
}

/// The classes of the repeat button.
pub open spec fn spec_repeat_class(m: RepeatMode, animating: bool) -> Seq<char> {
    "mode-btn yt-repeat-atom "@ + match m {
        RepeatMode::Off => "is-off"@,
        RepeatMode::All => "is-all"@,
        RepeatMode::One => "is-one"@,
    } + " "@ + if animating {
        "is-animating"@
    } else {
        Seq::<char>::empty()
    }
}

pub fn repeat_class(m: RepeatMode, animating: bool) -> (r: String)
    ensures
        r@ == spec_repeat_class(m, animating),
{
    let mut out = lit("mode-btn yt-repeat-atom ");
    match m {
        RepeatMode::Off => crate::text::extend_chars(&mut out, &lit("is-off")),
        RepeatMode::All => crate::text::extend_chars(&mut out, &lit("is-all")),
        RepeatMode::One => crate::text::extend_chars(&mut out, &lit("is-one")),
    }
    crate::text::extend_chars(&mut out, &lit(" "));
    let ghost before = out@;
    if animating {
        crate::text::extend_chars(&mut out, &lit("is-animating"));
    } else {
        assert(out@ =~= before + Seq::<char>::empty());
    }
    crate::text::string_of(&out)
}

/// Whether a press starts the drawing animation: only from off to all.
pub fn starts_animation(m: RepeatMode) -> (r: bool)
    ensures
        r == (m == RepeatMode::Off),
{
    match m {
        RepeatMode::Off => true,
        _ => false,
    }
}

// ---------------------------------------------------------------------------
// The media viewer
// ---------------------------------------------------------------------------

/// What is done when a clip ends.
#[derive(Clone, Copy, Debug, PartialEq, Eq, Structural)]
pub enum EndedAction {
    /// Go to the next file of the same kind.
    GoNext,
    /// Play the clip again from the start.
    Restart,
    /// Nothing.
    Stay,
}

pub open spec fn spec_ended_action(mode: Seq<char>) -> EndedAction {
    if mode == "next"@ {
        EndedAction::GoNext
    } else if mode == "loop"@ {
        EndedAction::Restart
    } else {
        EndedAction::Stay
    }
}

pub fn ended_action(mode: &str) -> (r: EndedAction)
    ensures
        r == spec_ended_action(mode@),
{
    let m = chars_of(mode);
    if eq_chars(&m, &lit("next")) {
        EndedAction::GoNext
    } else if eq_chars(&m, &lit("loop")) {
        EndedAction::Restart
    } else {
        EndedAction::Stay
    }
}

/// The end of a clip does what its repeat mode says.
pub proof fn lemma_ended_follows_repeat(m: RepeatMode)
    ensures
        spec_ended_action(spec_playback_of(m)) == match m {
            RepeatMode::Off => EndedAction::Stay,
            RepeatMode::All => EndedAction::GoNext,
            RepeatMode::One => EndedAction::Restart,
        },
{
    lemma_playback_names_differ();
}

/// How the viewer shows a file: as a video, as a sound, or as a picture
/// (anything that is neither of the first two).
pub open spec fn spec_viewer_kind(path: Seq<char>) -> MediaCategory {
    match spec_media_category(path) {
        MediaCategory::Video => MediaCategory::Video,
        MediaCategory::Audio => MediaCategory::Audio,
        _ => MediaCategory::Image,
    }
}

pub fn viewer_kind(path: &str) -> (r: MediaCategory)
    ensures
        r == spec_viewer_kind(path@),
{
    match media_category(path) {
        MediaCategory::Video => MediaCategory::Video,
        MediaCategory::Audio => MediaCategory::Audio,
        _ => MediaCategory::Image,
    }
}

pub open spec fn abs(x: int) -> int {
    if x < 0 {
        -x
    } else {
        x
    }
}

/// A swipe over the viewer, from where the finger went down to where it
/// left: more than 50 pixels across, and more across than down, moves to
/// the next file (`Some(true)`, leftwards) or the previous one (`Some(false)`).
pub open spec fn spec_swipe(start_x: i32, start_y: i32, end_x: i32, end_y: i32) -> Option<bool> {
    let dx = start_x - end_x;
    let dy = start_y - end_y;
    if abs(dx) > 50 && abs(dx) > abs(dy) {
        Some(dx > 0)
    } else {
        None
    }
}

pub fn swipe(start_x: i32, start_y: i32, end_x: i32, end_y: i32) -> (r: Option<bool>)
    ensures
        r == spec_swipe(start_x, start_y, end_x, end_y),
{
    let dx: i64 = start_x as i64 - end_x as i64;
    let dy: i64 = start_y as i64 - end_y as i64;
    let ax: i64 = if dx < 0 {
        -dx
    } else {
        dx
    };
    let ay: i64 = if dy < 0 {
        -dy
    } else {
        dy
    };
    if ax > 50 && ax > ay {
        Some(dx > 0)
    } else {
        None
    }
}

// ---------------------------------------------------------------------------
// Taps on the video
// ---------------------------------------------------------------------------

/// Where on the video a tap falls: the left or right third (by 33% and
/// 67% of the width), or the middle.
#[derive(Clone, Copy, Debug, PartialEq, Eq, Structural)]
pub enum TapZone {
    Left,
    Middle,
    Right,
}

/// The zone of a tap at `x` on a video `width` pixels wide, as the ratio
/// `x / width` compares with 0.33 and 0.67 (a zero width makes the ratio
/// infinite, or not a number at `x == 0`).
pub open spec fn spec_tap_zone(x: i32, width: i32) -> TapZone {
    if width > 0 {
        if 100 * x < 33 * width {
            TapZone::Left
        } else if 100 * x > 67 * width {
            TapZone::Right
        } else {
            TapZone::Middle
        }
    } else if width < 0 {
        if 100 * x > 33 * width {
            TapZone::Left
        } else if 100 * x < 67 * width {
            TapZone::Right
        } else {
            TapZone::Middle
        }
    } else if x < 0 {
        TapZone::Left
    } else if x > 0 {
        TapZone::Right
    } else {
        TapZone::Middle
    }
}

pub fn tap_zone(x: i32, width: i32) -> (r: TapZone)
    ensures
        r == spec_tap_zone(x, width),
{
    let x100: i64 = 100 * (x as i64);
    let w33: i64 = 33 * (width as i64);
    let w67: i64 = 67 * (width as i64);
    if width > 0 {
        if x100 < w33 {
            TapZone::Left
        } else if x100 > w67 {
            TapZone::Right
        } else {
            TapZone::Middle
        }
    } else if width < 0 {
        if x100 > w33 {
            TapZone::Left
        } else if x100 < w67 {
            TapZone::Right
        } else {
            TapZone::Middle
        }
    } else if x < 0 {
        TapZone::Left
    } else if x > 0 {
        TapZone::Right
    } else {
        TapZone::Middle
    }
}

/// What the player remembers of the taps: when the last one was (in ms)
/// and how many came in a row.
#[derive(Clone, Copy, Debug, PartialEq, Eq, Structural)]
pub struct TapState {
    pub last_tap_ms: u64,
    pub tap_count: i32,
}

/// What a tap does.
#[derive(Clone, Copy, Debug, PartialEq, Eq, Structural)]
pub struct TapOutcome {
    /// Show or hide the controls (touch screens).
    pub flip_controls: bool,
    /// Play or pause (mouse).
    pub toggle_play: bool,
    /// Seconds to seek by (-10, 0 or 10).
    pub seek: i32,
    pub fullscreen: bool,
    pub state: TapState,
}

/// A tap on the video, at `now_ms`, whose press began at `down_ms`; `zone`
/// is where it fell, when the target is an element. A press held longer
/// than 200 ms is no tap. A tap within 300 ms of the last one continues a
/// run: on the sides it seeks 10 s back or forth, in the middle the second
/// tap toggles fullscreen, and the second tap also undoes what the first
/// did. Any other tap starts a run of one and plays or pauses (or, on a
/// touch screen, shows or hides the controls).
pub open spec fn spec_video_tap(
    state: TapState,
    now_ms: u64,
    down_ms: u64,
    zone: Option<TapZone>,
    touch: bool,
) -> TapOutcome {
    if now_ms - down_ms > 200 {
        TapOutcome {
            flip_controls: false,
            toggle_play: false,
            seek: 0,
            fullscreen: false,
            state,
        }
    } else if now_ms - state.last_tap_ms < 300 {
        let count = (state.tap_count + 1) as i32;
        let second = count == 2;
        let next = TapState { last_tap_ms: now_ms, tap_count: count };
        match zone {
            Some(TapZone::Middle) => TapOutcome {
                flip_controls: second && touch,
                toggle_play: second && !touch,
                seek: 0,
                fullscreen: second,
                state: next,
            },
            Some(z) => TapOutcome {
                flip_controls: second && touch,
                toggle_play: second && !touch,
                seek: if z == TapZone::Left {
                    -10i32
                } else {
                    10i32
                },
                fullscreen: false,
                state: next,
            },
            None => TapOutcome {
                flip_controls: false,
                toggle_play: false,
                seek: 0,
                fullscreen: false,
                state: next,
            },
        }
    } else {
        TapOutcome {
            flip_controls: touch,
            toggle_play: !touch,
            seek: 0,
            fullscreen: false,
            state: TapState { last_tap_ms: now_ms, tap_count: 1 },
        }
    }
}

pub fn video_tap(state: TapState, now_ms: u64, down_ms: u64, zone: Option<TapZone>, touch: bool) -> (r:
    TapOutcome)
    requires
        state.tap_count < i32::MAX,
    ensures
        r == spec_video_tap(state, now_ms, down_ms, zone, touch),
{
    let held: i128 = now_ms as i128 - down_ms as i128;
    if held > 200 {
        return TapOutcome {
            flip_controls: false,
            toggle_play: false,
            seek: 0,
            fullscreen: false,
            state,
        };
    }
    let gap: i128 = now_ms as i128 - state.last_tap_ms as i128;
    if gap < 300 {
        let count = state.tap_count + 1;
        let second = count == 2;
        let next = TapState { last_tap_ms: now_ms, tap_count: count };
        match zone {
            Some(TapZone::Middle) => TapOutcome {
                flip_controls: second && touch,
                toggle_play: second && !touch,
                seek: 0,
                fullscreen: second,
                state: next,
            },
            Some(z) => TapOutcome {
                flip_controls: second && touch,
                toggle_play: second && !touch,
                seek: if z == TapZone::Left {
                    -10
                } else {
                    10
                },
                fullscreen: false,
                state: next,
            },
            None => TapOutcome {
                flip_controls: false,
                toggle_play: false,
                seek: 0,
                fullscreen: false,
                state: next,
            },
        }
    } else {
        TapOutcome {
            flip_controls: touch,
            toggle_play: !touch,
            seek: 0,
            fullscreen: false,
            state: TapState { last_tap_ms: now_ms, tap_count: 1 },
        }
    }
}

/// A quick double tap in the middle toggles fullscreen and leaves playing
/// (or the controls) as it was: the second tap undoes the first.
pub proof fn lemma_double_tap_middle(
    state: TapState,
    t1: u64,
    d1: u64,
    t2: u64,
    d2: u64,
    touch: bool,
)
    requires
        t1 - d1 <= 200,
        t1 - state.last_tap_ms >= 300,
        t2 - d2 <= 200,
        0 <= t2 - t1 < 300,
    ensures
        ({
            let first = spec_video_tap(state, t1, d1, Some(TapZone::Middle), touch);
            let second = spec_video_tap(first.state, t2, d2, Some(TapZone::Middle), touch);
            &&& second.fullscreen
            &&& first.flip_controls == second.flip_controls
            &&& first.toggle_play == second.toggle_play
            &&& second.state.tap_count == 2
        }),
{
}

/// Two quick taps in any zone: the second undoes what the first did to
/// playing (or to the controls on a touch screen), so playing is left as it
/// was; on a side the second tap seeks ten seconds back (left) or ahead
/// (right), and in the middle it toggles fullscreen.
pub proof fn lemma_double_tap_any_zone(
    state: TapState,
    t1: u64,
    d1: u64,
    t2: u64,
    d2: u64,
    zone: TapZone,
    touch: bool,
)
    requires
        t1 - d1 <= 200,
        t1 - state.last_tap_ms >= 300,
        t2 - d2 <= 200,
        0 <= t2 - t1 < 300,
    ensures
        ({
            let first = spec_video_tap(state, t1, d1, Some(zone), touch);
            let second = spec_video_tap(first.state, t2, d2, Some(zone), touch);
            &&& first.toggle_play == !touch
            &&& first.flip_controls == touch
            &&& first.seek == 0
            &&& second.toggle_play == first.toggle_play
            &&& second.flip_controls == first.flip_controls
            &&& second.state.tap_count == 2
            &&& second.seek == (if zone == TapZone::Left {
                -10i32
            } else if zone == TapZone::Right {
                10i32
            } else {
                0i32
            })
            &&& second.fullscreen == (zone == TapZone::Middle)
        }),
{
}

// ---------------------------------------------------------------------------
// Holding the video for double speed
// ---------------------------------------------------------------------------

#[derive(Clone, Copy, Debug, PartialEq, Eq, Structural)]
pub enum SpeedGesture {
    Idle,
    Holding,
}

/// The press ends: a hold goes back to idle and the speed from before it
/// is put back (`true`); otherwise nothing changes.
pub fn release_gesture(g: SpeedGesture) -> (r: (SpeedGesture, bool))
    ensures
        r == (SpeedGesture::Idle, g == SpeedGesture::Holding),
{
    match g {
        SpeedGesture::Holding => (SpeedGesture::Idle, true),
        SpeedGesture::Idle => (SpeedGesture::Idle, false),
    }
}

/// The controls are hidden when they are switched off or while the video
/// is held for speed.
pub fn controls_hidden(show_controls: bool, g: SpeedGesture) -> (r: bool)
    ensures
        r == (!show_controls || g != SpeedGesture::Idle),
{
    !show_controls || g != SpeedGesture::Idle
}

} // verus!
