use bad_apple::frames::WinCoords;
use bad_apple::pool::{BatchHandle, WindowCollection};
use bad_apple::slot::{DeferredWindow, Visibility};

fn clean_pool(n: isize) -> WindowCollection {
    let mut wins = Vec::new();
    for i in 0..n {
        wins.push(DeferredWindow::new_from_hwnd(100 + i, 0, 0, 10, 10));
    }
    let mut pool = WindowCollection::new(wins);
    pool.draw();
    pool
}

#[test]
fn begin_gives_empty_batch() {
    let b = BatchHandle::begin(5);
    assert!(b.ops.is_empty());
}

#[test]
fn fresh_pool_commits_every_window() {
    let wins = vec![DeferredWindow::new(1), DeferredWindow::new(2)];
    let mut pool = WindowCollection::new(wins);
    assert_eq!(pool.len(), 2);
    assert_eq!(pool.changed(), 2);
    let batch = pool.draw();
    assert_eq!(batch.ops.len(), 2);
    assert_eq!(batch.ops[0].hwnd, 1);
    assert_eq!(batch.ops[1].hwnd, 2);
    assert_eq!(pool.changed(), 0);
}

#[test]
fn draw_batches_only_stale_slots_in_order() {
    let mut pool = clean_pool(4);
    assert_eq!(pool.changed(), 0);
    pool.set_pos(3, 5, 5);
    pool.set_visible(1, false);
    assert_eq!(pool.changed(), 2);
    let batch = pool.draw();
    assert_eq!(batch.ops.len(), 2);
    assert_eq!(batch.ops[0].hwnd, 101);
    assert_eq!(batch.ops[0].visibility, Visibility::Hide);
    assert_eq!(batch.ops[1].hwnd, 103);
    assert!(batch.ops[1].apply_move);
    assert!(!batch.ops[1].apply_size);
    assert_eq!(pool.changed(), 0);
    assert!(!pool.slot(3).stale());
}

#[test]
fn draw_with_nothing_stale_is_empty() {
    let mut pool = clean_pool(3);
    let batch = pool.draw();
    assert!(batch.ops.is_empty());
    assert_eq!(pool.changed(), 0);
}

#[test]
fn no_net_change_leaves_pool_clean() {
    let mut pool = clean_pool(3);
    pool.set_pos(0, 9, 9);
    pool.set_sz(2, 1, 1);
    pool.set_visible(1, false);
    pool.set_pos(0, 0, 0);
    pool.set_sz(2, 10, 10);
    pool.set_visible(1, true);
    assert_eq!(pool.changed(), 0);
    for i in 0..3 {
        assert!(!pool.slot(i).stale());
    }
}

#[test]
fn apply_frame_scales_and_hides_the_rest() {
    let mut pool = clean_pool(3);
    let rects = vec![WinCoords { x: 5, y: 6, w: 10, h: 12 }];
    pool.apply_frame(&rects, 1280, 960);
    assert_eq!(pool.changed(), 3);
    let batch = pool.draw();
    assert_eq!(batch.ops.len(), 3);
    let first = batch.ops[0];
    assert_eq!((first.x, first.y, first.w, first.h), (100, 120, 200, 240));
    assert!(first.apply_move && first.apply_size);
    assert_eq!(batch.ops[1].hwnd, 101);
    assert_eq!(batch.ops[1].visibility, Visibility::Hide);
    assert_eq!(batch.ops[2].hwnd, 102);
    assert_eq!(batch.ops[2].visibility, Visibility::Hide);
    assert_eq!(batch.ops[0].hwnd, 100);
}

#[test]
fn apply_frame_truncates_fractional_scale() {
    let mut pool = clean_pool(1);
    let rects = vec![WinCoords { x: 3, y: 5, w: 1, h: 1 }];
    pool.apply_frame(&rects, 100, 100);
    let batch = pool.draw();
    let op = batch.ops[0];
    // 3 * 100 / 64 = 4.6875, 5 * 100 / 48 = 10.41..., 100 / 64 = 1.5625, 100 / 48 = 2.08...
    assert_eq!((op.x, op.y, op.w, op.h), (4, 10, 1, 2));
}
