use bad_apple::slot::{DeferredWindow, Visibility};

fn clean_slot() -> DeferredWindow {
    let mut w = DeferredWindow::new_from_hwnd(7, 10, 20, 30, 40);
    w.draw();
    w
}

#[test]
fn new_slot_waits_to_be_shown() {
    let mut w = DeferredWindow::new(3);
    assert!(w.stale());
    let op = w.draw();
    assert_eq!(op.hwnd, 3);
    assert_eq!((op.x, op.y, op.w, op.h), (10, 10, 64, 48));
    assert_eq!(op.visibility, Visibility::Show);
    assert!(op.redraw);
    assert!(!op.apply_move);
    assert!(!op.apply_size);
    assert!(!w.stale());
}

#[test]
fn setting_same_values_is_not_stale() {
    let mut w = clean_slot();
    w.set_pos(10, 20);
    w.set_sz(30, 40);
    w.set_visible(true);
    assert!(!w.stale());
}

#[test]
fn change_and_change_back_is_not_stale() {
    let mut w = clean_slot();
    w.set_pos(11, 20);
    assert!(w.stale());
    w.set_pos(10, 20);
    assert!(!w.stale());
    w.set_sz(1, 2);
    w.set_visible(false);
    w.set_visible(true);
    w.set_sz(30, 40);
    assert!(!w.stale());
}

#[test]
fn repeated_set_keeps_pending_change() {
    let mut w = clean_slot();
    w.set_pos(50, 60);
    w.set_pos(50, 60);
    assert!(w.stale());
    let op = w.draw();
    assert!(op.apply_move);
    assert!(!op.apply_size);
    assert_eq!((op.x, op.y), (50, 60));
}

#[test]
fn commit_clears_and_recommit_is_noop() {
    let mut w = clean_slot();
    w.set_sz(5, 6);
    let op = w.draw();
    assert!(op.apply_size);
    assert!(!op.apply_move);
    assert_eq!(op.visibility, Visibility::Keep);
    assert!(!op.redraw);
    assert!(!w.stale());
    let again = w.draw();
    assert!(!again.apply_move && !again.apply_size && !again.redraw);
    assert_eq!(again.visibility, Visibility::Keep);
    assert!(!w.stale());
}

#[test]
fn hiding_skips_move_and_resize() {
    let mut w = clean_slot();
    w.set_pos(1, 2);
    w.set_sz(3, 4);
    w.set_visible(false);
    let op = w.draw();
    assert_eq!(op.visibility, Visibility::Hide);
    assert!(!op.apply_move);
    assert!(!op.apply_size);
    assert!(!op.redraw);
    assert!(!w.stale());
    assert_eq!(w.shown(), None);
}

#[test]
fn moving_a_hidden_window_is_stale() {
    let mut w = clean_slot();
    w.set_visible(false);
    w.draw();
    w.set_pos(1, 2);
    assert!(w.stale());
    let op = w.draw();
    assert_eq!(op.visibility, Visibility::Keep);
    assert!(op.apply_move);
    assert!(!op.apply_size);
    assert!(!op.redraw);
    assert!(!w.stale());
    assert_eq!(w.shown(), None);

    w.set_visible(true);
    let op = w.draw();
    assert_eq!(op.visibility, Visibility::Show);
    assert!(op.redraw);
    assert!(!op.apply_move);
    assert!(!op.apply_size);
    assert_eq!(w.shown(), Some((1, 2, 30, 40)));
}

#[test]
fn showing_again_applies_held_back_placement() {
    let mut w = clean_slot();
    w.set_pos(1, 2);
    w.set_visible(false);
    let op = w.draw();
    assert_eq!(op.visibility, Visibility::Hide);
    assert!(!op.apply_move && !op.apply_size);
    assert!(!w.stale());

    // a clean slot commits nothing, held-back placement or not
    let again = w.draw();
    assert!(!again.apply_move && !again.apply_size && !again.redraw);
    assert_eq!(again.visibility, Visibility::Keep);

    w.set_visible(true);
    let op = w.draw();
    assert_eq!(op.visibility, Visibility::Show);
    assert!(op.redraw);
    assert!(op.apply_move);
    assert!(op.apply_size);
    assert_eq!((op.x, op.y, op.w, op.h), (1, 2, 30, 40));
    assert_eq!(w.shown(), Some((1, 2, 30, 40)));

    // once applied, nothing is held back any more
    w.set_visible(false);
    w.draw();
    w.set_visible(true);
    let op = w.draw();
    assert!(!op.apply_move && !op.apply_size);
}
