use symbia::controls::{choose_animation, cursor_step, AnimChoice, AnimClip, CursorNotice, HudConfig, MoveKeys};

fn keys(forward: bool, backward: bool, left: bool, right: bool) -> MoveKeys {
    MoveKeys { forward, backward, left, right }
}

#[test]
fn cursor_stays_free_without_input() {
    let u = cursor_step(false, false, false, false);
    assert!(!u.captured && !u.locked && u.visible);
    assert!(u.notices.is_empty());
}

#[test]
fn cursor_click_captures() {
    let u = cursor_step(false, false, false, true);
    assert!(u.captured && u.locked && !u.visible);
    assert_eq!(u.notices, vec![CursorNotice::Resumed]);
}

#[test]
fn cursor_escape_toggles() {
    let u = cursor_step(true, true, true, false);
    assert!(!u.captured && !u.locked && u.visible);
    assert_eq!(u.notices, vec![CursorNotice::Paused]);
    let u = cursor_step(false, false, true, false);
    assert!(u.captured);
    assert_eq!(u.notices, vec![CursorNotice::Resumed]);
}

#[test]
fn cursor_escape_then_click_same_frame() {
    let u = cursor_step(true, false, true, true);
    assert!(u.captured);
    assert_eq!(u.notices, vec![CursorNotice::Paused, CursorNotice::Resumed]);
}

#[test]
fn cursor_locked_window_counts_as_captured() {
    let u = cursor_step(false, true, false, false);
    assert!(u.captured);
    assert!(u.notices.is_empty());
}

#[test]
fn animation_choices() {
    let none = keys(false, false, false, false);
    assert_eq!(choose_animation(true, false, true, none), AnimChoice { clip: AnimClip::Jump, speed_percent: 80 });
    assert_eq!(choose_animation(false, false, true, none), AnimChoice { clip: AnimClip::Walk, speed_percent: 80 });
    assert_eq!(choose_animation(false, true, false, none), AnimChoice { clip: AnimClip::Idle, speed_percent: 100 });
    assert_eq!(choose_animation(false, true, true, keys(false, false, true, false)).clip, AnimClip::StrafeLeft);
    assert_eq!(choose_animation(false, true, true, keys(false, false, false, true)).clip, AnimClip::StrafeRight);
    assert_eq!(choose_animation(false, true, true, keys(false, true, false, false)), AnimChoice { clip: AnimClip::Back, speed_percent: 140 });
    assert_eq!(choose_animation(false, true, true, keys(true, false, true, false)).clip, AnimClip::Walk);
    assert_eq!(choose_animation(false, true, true, keys(false, true, true, false)).clip, AnimClip::Walk);
    assert_eq!(choose_animation(false, true, true, keys(false, false, true, true)).clip, AnimClip::StrafeLeft);
}

#[test]
fn hud_shows_everything_by_default() {
    let c = HudConfig::default();
    assert!(c.show_fps && c.show_coords && c.show_seed);
}
