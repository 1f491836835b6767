//! Small rules of the shared interface pieces: button styles, the status
//! ring, the like and dislike pair.
use vstd::prelude::*;

use crate::number::{decimal, decimal_chars};
use crate::text::string_of;

verus! {

/// The styles of a button.
#[derive(Clone, Copy, Debug, PartialEq, Eq, Structural)]
pub enum ButtonVariant {
    Primary,
    Secondary,
    Danger,
    /// The ghost style (a see-through button).
    Flat,
}

pub open spec fn spec_button_class(v: ButtonVariant) -> Seq<char> {
    match v {
        ButtonVariant::Primary => "atm-btn--primary"@,
        ButtonVariant::Secondary => "atm-btn--secondary"@,
        ButtonVariant::Danger => "atm-btn--danger"@,
        ButtonVariant::Flat => "atm-btn--ghost"@,
    }
}

impl ButtonVariant {
    pub fn as_class(&self) -> (r: &'static str)
        ensures
            r@ == spec_button_class(*self),
    {
        match self {
            ButtonVariant::Primary => "atm-btn--primary",
            ButtonVariant::Secondary => "atm-btn--secondary",
            ButtonVariant::Danger => "atm-btn--danger",
            ButtonVariant::Flat => "atm-btn--ghost",
        }
    }
}

/// The states of the status ring; `Loading` carries a percentage.
#[derive(Clone, Copy, Debug, PartialEq, Eq, Structural)]
pub enum RingState {
    Idle,
    Loading(u8),
    Processing,
    Success,
    Warning,
    Error,
    Skipped,
}

pub open spec fn spec_ring_class(s: RingState) -> Seq<char> {
    match s {
        RingState::Idle => "is-idle"@,
        RingState::Loading(_) => "is-loading"@,
        RingState::Processing => "is-processing"@,
        RingState::Success => "is-success"@,
        RingState::Warning => "is-warning"@,
        RingState::Error => "is-error"@,
        RingState::Skipped => "is-skipped"@,
    }
}

impl RingState {
    pub fn as_class(&self) -> (r: &'static str)
        ensures
            r@ == spec_ring_class(*self),
    {
        match self {
            RingState::Idle => "is-idle",
            RingState::Loading(_) => "is-loading",
            RingState::Processing => "is-processing",
            RingState::Success => "is-success",
            RingState::Warning => "is-warning",
            RingState::Error => "is-error",
            RingState::Skipped => "is-skipped",
        }
    }

    /// The number written in the ring: the percentage, at most 100, while
    /// loading; nothing otherwise.
    pub fn progress_text(&self) -> (r: String)
        ensures
            r@ == match *self {
                RingState::Loading(p) => decimal(
                    if p > 100 {
                        100nat
                    } else {
                        p as nat
                    },
                ),
                _ => Seq::<char>::empty(),
            },
    {
        match self {
            RingState::Loading(p) => {
                let q: u8 = if *p > 100 {
                    100
                } else {
                    *p
                };
                string_of(&decimal_chars(q as u64))
            },
            _ => String::new(),
        }
    }
}

/// The classes of the wrapper of the status ring.
pub fn ring_wrapper_class(s: RingState) -> (r: String)
    ensures
        r@ == "atm-status-ring "@ + spec_ring_class(s),
{
    let mut out = crate::text::lit("atm-status-ring ");
    crate::text::extend_chars(&mut out, &crate::text::lit(s.as_class()));
    string_of(&out)
}

/// The like and dislike pair: which one is on, and the number of likes.
#[derive(Clone, Copy, Debug, PartialEq, Eq, Structural)]
pub struct LikeState {
    pub liked: bool,
    pub disliked: bool,
    pub count: i32,
}

/// A press on like: it takes the like back (one less), or likes (one more)
/// and takes a dislike back.
pub open spec fn spec_press_like(s: LikeState) -> LikeState {
    if s.liked {
        LikeState { liked: false, disliked: s.disliked, count: (s.count - 1) as i32 }
    } else {
        LikeState { liked: true, disliked: false, count: (s.count + 1) as i32 }
    }
}

/// A press on dislike: it takes the dislike back, or dislikes and takes a
/// like back. The like is taken back before the count would be lowered, so
/// the count stays as it is.
pub open spec fn spec_press_dislike(s: LikeState) -> LikeState {
    if s.disliked {
        LikeState { disliked: false, ..s }
    } else {
        LikeState { liked: false, disliked: true, count: s.count }
    }
}

pub fn press_like(s: LikeState) -> (r: LikeState)
    requires
        s.liked ==> s.count > i32::MIN,
        !s.liked ==> s.count < i32::MAX,
    ensures
        r == spec_press_like(s),
{
    if s.liked {
        LikeState { liked: false, disliked: s.disliked, count: s.count - 1 }
    } else {
        LikeState { liked: true, disliked: false, count: s.count + 1 }
    }
}

pub fn press_dislike(s: LikeState) -> (r: LikeState)
    ensures
        r == spec_press_dislike(s),
{
    if s.disliked {
        LikeState { disliked: false, ..s }
    } else {
        LikeState { liked: false, disliked: true, count: s.count }
    }
}

/// Like and dislike are never both on, once a button was pressed.
pub proof fn lemma_like_exclusive(s: LikeState)
    ensures
        !(spec_press_like(s).liked && spec_press_like(s).disliked),
        !(spec_press_dislike(s).liked && spec_press_dislike(s).disliked) || (s.liked
            && s.disliked),
{
}

/// Pressing like twice gives back the number of likes and the like.
pub proof fn lemma_like_twice(s: LikeState)
    requires
        s.count < i32::MAX,
        s.count > i32::MIN,
    ensures
        spec_press_like(spec_press_like(s)).count == s.count,
        spec_press_like(spec_press_like(s)).liked == s.liked,
{
}

/// The class of the save button.
pub fn save_class(saved: bool) -> (r: &'static str)
    ensures
        r@ == (if saved {
            "yt-pill-btn standalone yt-save-atom is-success"@
        } else {
            "yt-pill-btn standalone yt-save-atom"@
        }),
{
    if saved {
        "yt-pill-btn standalone yt-save-atom is-success"
    } else {
        "yt-pill-btn standalone yt-save-atom"
    }
}

/// The title of the follow button.
pub fn follow_title(following: bool) -> (r: &'static str)
    ensures
        r@ == (if following {
            "Đang theo dõi"@
        } else {
            "Theo dõi"@
        }),
{
    if following {
        "Đang theo dõi"
    } else {
        "Theo dõi"
    }
}

} // verus!
