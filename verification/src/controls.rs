//! The client's small decision rules: capturing the mouse cursor, choosing
//! the player's animation, and what the heads-up display shows.

use vstd::prelude::*;

verus! {

/// A message to the player about the cursor.
#[derive(Debug, Clone, Copy, PartialEq, Eq, Structural)]
pub enum CursorNotice {
    /// The game takes the cursor again.
    Resumed,
    /// The game lets the cursor go.
    Paused,
}

/// The cursor after a frame: whether the game holds it, whether it is
/// locked to the window and shown, and what to tell the player.
pub struct CursorUpdate {
    pub captured: bool,
    pub locked: bool,
    pub visible: bool,
    pub notices: Vec<CursorNotice>,
}

/// Whether the game holds the cursor after the window lock is noticed and
/// Escape is handled.
pub open spec fn captured_after_escape(captured: bool, window_locked: bool, escape: bool) -> bool {
    let c = captured || window_locked;
    if escape {
        !c
    } else {
        c
    }
}

/// Whether the game holds the cursor at the end of a frame: a locked window
/// means held, Escape toggles, and a left click takes a free cursor back.
pub open spec fn captured_after(captured: bool, window_locked: bool, escape: bool, left_click: bool) -> bool {
    captured_after_escape(captured, window_locked, escape) || left_click
}

/// What the player is told during a frame: the Escape toggle, then a left
/// click that takes the cursor back.
pub open spec fn cursor_notices(captured: bool, window_locked: bool, escape: bool, left_click: bool) -> Seq<CursorNotice> {
    let c = captured_after_escape(captured, window_locked, escape);
    (if escape {
        seq![if c { CursorNotice::Resumed } else { CursorNotice::Paused }]
    } else {
        seq![]
    }) + (if !c && left_click {
        seq![CursorNotice::Resumed]
    } else {
        seq![]
    })
}

/// One frame of cursor handling from whether the game held the cursor,
/// whether the window reports it locked, and whether Escape or the left
/// mouse button was just pressed.
pub fn cursor_step(captured: bool, window_locked: bool, escape_pressed: bool, left_pressed: bool) -> (r: CursorUpdate)
    ensures
        r.captured == captured_after(captured, window_locked, escape_pressed, left_pressed),
        r.locked == r.captured,
        r.visible == !r.captured,
        r.notices@ == cursor_notices(captured, window_locked, escape_pressed, left_pressed),
{
    let mut is_captured = captured;
    let mut notices: Vec<CursorNotice> = Vec::new();
    if !is_captured && window_locked {
        is_captured = true;
    }
    if escape_pressed {
        is_captured = !is_captured;
        if is_captured {
            notices.push(CursorNotice::Resumed);
        } else {
            notices.push(CursorNotice::Paused);
        }
    }
    if !is_captured && left_pressed {
        is_captured = true;
        notices.push(CursorNotice::Resumed);
    }
    assert(notices@ =~= cursor_notices(captured, window_locked, escape_pressed, left_pressed));
    CursorUpdate { captured: is_captured, locked: is_captured, visible: !is_captured, notices }
}

/// The animation clips of the player model.
#[derive(Debug, Clone, Copy, PartialEq, Eq, Structural)]
pub enum AnimClip {
    Idle,
    Walk,
    Back,
    Jump,
    StrafeLeft,
    StrafeRight,
}

/// The movement keys held: W, S, A and D.
#[derive(Debug, Clone, Copy, PartialEq, Eq, Structural)]
pub struct MoveKeys {
    pub forward: bool,
    pub backward: bool,
    pub left: bool,
    pub right: bool,
}

/// A clip to play, looping, at `speed_percent` percent of its speed.
#[derive(Debug, Clone, Copy, PartialEq, Eq, Structural)]
pub struct AnimChoice {
    pub clip: AnimClip,
    pub speed_percent: u32,
}

/// The clip the player plays: the jump clip on a deliberate jump, walking
/// slowly while in the air, idle when still; moving on the ground, a
/// sideways or backward clip when only that key is held, else walking.
pub open spec fn animation_for(jumping: bool, on_ground: bool, moving: bool, keys: MoveKeys) -> AnimChoice {
    let pure_left = keys.left && !keys.forward && !keys.backward;
    let pure_right = keys.right && !keys.forward && !keys.backward;
    let pure_back = keys.backward && !keys.forward && !keys.left && !keys.right;
    if jumping {
        AnimChoice { clip: AnimClip::Jump, speed_percent: 80 }
    } else if !on_ground {
        AnimChoice { clip: AnimClip::Walk, speed_percent: 80 }
    } else if moving {
        if pure_left {
            AnimChoice { clip: AnimClip::StrafeLeft, speed_percent: 140 }
        } else if pure_right {
            AnimChoice { clip: AnimClip::StrafeRight, speed_percent: 140 }
        } else if pure_back {
            AnimChoice { clip: AnimClip::Back, speed_percent: 140 }
        } else {
            AnimChoice { clip: AnimClip::Walk, speed_percent: 140 }
        }
    } else {
        AnimChoice { clip: AnimClip::Idle, speed_percent: 100 }
    }
}

/// The clip to play from the player's state: a deliberate jump in progress,
/// standing on the ground, moving, and the keys held.
pub fn choose_animation(jumping_intentional: bool, on_ground: bool, is_moving: bool, keys: MoveKeys) -> (r: AnimChoice)
    ensures
        r == animation_for(jumping_intentional, on_ground, is_moving, keys),
{
    let pure_left = keys.left && !keys.forward && !keys.backward;
    let pure_right = keys.right && !keys.forward && !keys.backward;
    let pure_back = keys.backward && !keys.forward && !keys.left && !keys.right;
    if jumping_intentional {
        AnimChoice { clip: AnimClip::Jump, speed_percent: 80 }
    } else if !on_ground {
        AnimChoice { clip: AnimClip::Walk, speed_percent: 80 }
    } else if is_moving {
        if pure_left {
            AnimChoice { clip: AnimClip::StrafeLeft, speed_percent: 140 }
        } else if pure_right {
            AnimChoice { clip: AnimClip::StrafeRight, speed_percent: 140 }
        } else if pure_back {
            AnimChoice { clip: AnimClip::Back, speed_percent: 140 }
        } else {
            AnimChoice { clip: AnimClip::Walk, speed_percent: 140 }
        }
    } else {
        AnimChoice { clip: AnimClip::Idle, speed_percent: 100 }
    }
}

/// Which lines the heads-up display shows.
pub struct HudConfig {
    pub show_fps: bool,
    pub show_coords: bool,
    pub show_seed: bool,
}

impl Default for HudConfig {
    /// Every line is shown.
    fn default() -> (r: Self)
        ensures
            r.show_fps && r.show_coords && r.show_seed,
    {
        HudConfig { show_fps: true, show_coords: true, show_seed: true }
    }
}

/// Cursor capture: a left click always leaves the game holding the cursor;
/// without a click, Escape toggles the held state (a locked window counting
/// as held) and no key keeps it; at most two notices are given, and the
/// last one tells the state the frame ends in.
pub proof fn lemma_cursor_rules(captured: bool, window_locked: bool, escape: bool, left_click: bool)
    ensures
        left_click ==> captured_after(captured, window_locked, escape, left_click),
        !left_click && !escape ==> captured_after(captured, window_locked, escape, left_click) == (
        captured || window_locked),
        !left_click && escape ==> captured_after(captured, window_locked, escape, left_click) == !(
        captured || window_locked),
        cursor_notices(captured, window_locked, escape, left_click).len() <= 2,
        !escape && (captured || window_locked || !left_click) ==> cursor_notices(
            captured,
            window_locked,
            escape,
            left_click,
        ).len() == 0,
        ({
            let ns = cursor_notices(captured, window_locked, escape, left_click);
            ns.len() > 0 ==> ns[ns.len() - 1] == (if captured_after(
                captured,
                window_locked,
                escape,
                left_click,
            ) {
                CursorNotice::Resumed
            } else {
                CursorNotice::Paused
            })
        }),
{
}

/// The animation chosen: the jump clip exactly on a deliberate jump; walking
/// at 80% while airborne; idle at 100% exactly when standing still on the
/// ground; and, moving on the ground at 140%, the backward clip only when S
/// is the only movement key held, a sideways clip only when its key is held
/// without W or S (left taking precedence), walking otherwise.
pub proof fn lemma_animation_rules(jumping: bool, on_ground: bool, moving: bool, keys: MoveKeys)
    ensures
        ({
            let a = animation_for(jumping, on_ground, moving, keys);
            let only_back = keys.backward && !keys.forward && !keys.left && !keys.right;
            let left_side = keys.left && !keys.forward && !keys.backward;
            let right_side = keys.right && !keys.forward && !keys.backward;
            &&& a.clip == AnimClip::Jump <==> jumping
            &&& !jumping && !on_ground ==> a == AnimChoice { clip: AnimClip::Walk, speed_percent: 80 }
            &&& a.clip == AnimClip::Idle <==> (!jumping && on_ground && !moving)
            &&& a.clip == AnimClip::Idle ==> a.speed_percent == 100
            &&& a.speed_percent == 140 <==> (!jumping && on_ground && moving)
            &&& a.speed_percent == 80 <==> (jumping || !on_ground)
            &&& a.clip == AnimClip::Back ==> !jumping && on_ground && moving && only_back
            &&& a.clip == AnimClip::StrafeLeft ==> !jumping && on_ground && moving && left_side
            &&& a.clip == AnimClip::StrafeRight ==> !jumping && on_ground && moving && right_side
                && !left_side
            &&& !jumping && on_ground && moving ==> (a.clip == AnimClip::Back <==> only_back)
            &&& !jumping && on_ground && moving ==> (a.clip == AnimClip::StrafeLeft <==> left_side)
            &&& !jumping && on_ground && moving ==> (a.clip == AnimClip::StrafeRight <==> (right_side
                && !left_side))
            &&& !jumping && on_ground && moving && !only_back && !left_side && !right_side
                ==> a.clip == AnimClip::Walk
        }),
{
}

} // verus!
