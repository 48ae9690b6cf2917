use bad_apple::frames::{AssetError, WinCoords};
use bad_apple::pool::WindowCollection;
use bad_apple::scheduler::{Message, Scheduler, Tick};
use bad_apple::slot::{DeferredWindow, Visibility};

fn rect(x: u8, y: u8, w: u8, h: u8) -> Option<WinCoords> {
    Some(WinCoords { x, y, w, h })
}

fn pool(n: isize) -> WindowCollection {
    let mut wins = Vec::new();
    for i in 0..n {
        wins.push(DeferredWindow::new(i));
    }
    let mut pool = WindowCollection::new(wins);
    pool.draw();
    pool
}

fn two_frames() -> Vec<Option<WinCoords>> {
    vec![rect(5, 5, 10, 10), None, rect(20, 20, 8, 8), None]
}

#[test]
fn two_frames_on_two_windows() {
    let mut sched = Scheduler::new(two_frames(), 0);
    let mut wins = pool(2);

    let batch = match sched.tick(&mut wins, 0, 64, 48) {
        Ok(Tick::Drawn(b)) => b,
        _ => panic!("frame 0 not drawn"),
    };
    assert_eq!(batch.ops.len(), 2);
    let op0 = batch.ops[0];
    assert_eq!(op0.hwnd, 0);
    assert_eq!((op0.x, op0.y, op0.w, op0.h), (5, 5, 10, 10));
    assert_eq!(batch.ops[1].hwnd, 1);
    assert_eq!(batch.ops[1].visibility, Visibility::Hide);
    assert_eq!(sched.next_tick(), 1);

    let batch = match sched.tick(&mut wins, 1, 64, 48) {
        Ok(Tick::Drawn(b)) => b,
        _ => panic!("frame 1 not drawn"),
    };
    assert_eq!(batch.ops.len(), 1);
    let op0 = batch.ops[0];
    assert_eq!(op0.hwnd, 0);
    assert_eq!((op0.x, op0.y, op0.w, op0.h), (20, 20, 8, 8));
    assert!(!wins.slot(1).stale());

    assert!(matches!(sched.tick(&mut wins, 2, 64, 48), Ok(Tick::Finished)));
    assert!(sched.is_finished());
    assert!(matches!(sched.tick(&mut wins, 3, 64, 48), Ok(Tick::Finished)));
}

#[test]
fn too_many_rectangles_for_pool() {
    let frames = vec![rect(1, 1, 1, 1), rect(2, 2, 2, 2), rect(3, 3, 3, 3), None];
    let mut sched = Scheduler::new(frames, 0);
    let mut wins = pool(2);
    wins.set_pos(0, 40, 40);
    let r = sched.tick(&mut wins, 0, 64, 48);
    assert!(matches!(r, Err(AssetError::AssetPoolMismatch)));
    // nothing was committed: the pending change is still there
    assert_eq!(wins.changed(), 1);
}

#[test]
fn clock_jump_past_the_end_finishes_without_drawing() {
    let mut sched = Scheduler::new(two_frames(), 0);
    let mut wins = pool(2);
    wins.set_visible(1, false);
    let r = sched.tick(&mut wins, 5, 64, 48);
    assert!(matches!(r, Ok(Tick::Finished)));
    assert!(sched.is_finished());
    assert_eq!(wins.changed(), 1);
}

#[test]
fn clock_behind_is_idle() {
    let mut sched = Scheduler::new(two_frames(), 3);
    assert_eq!(sched.advance(2, 2), Ok(Message::Idle));
    assert_eq!(sched.next_tick(), 3);
    assert_eq!(sched.advance(3, 2), Ok(Message::Frame(vec![WinCoords { x: 5, y: 5, w: 10, h: 10 }])));
    assert_eq!(sched.advance(3, 2), Ok(Message::Idle));
}

#[test]
fn catch_up_matches_stepwise_delivery() {
    let frames = vec![
        rect(1, 1, 1, 1),
        None,
        rect(2, 2, 2, 2),
        rect(9, 9, 9, 9),
        None,
        None,
        rect(4, 4, 4, 4),
        None,
        rect(6, 6, 6, 6),
    ];
    let mut step = Scheduler::new(frames.clone(), 0);
    let mut jump = Scheduler::new(frames, 0);
    let mut step_pool = pool(2);
    let mut jump_pool = pool(2);

    for t in 1..4u64 {
        assert!(matches!(step.tick(&mut step_pool, t, 64, 48), Ok(Tick::Drawn(_))));
    }
    assert!(matches!(jump.tick(&mut jump_pool, 3, 64, 48), Ok(Tick::Drawn(_))));
    assert_eq!(step.next_tick(), jump.next_tick());

    for i in 0..2 {
        let a = step_pool.slot(i);
        let b = jump_pool.slot(i);
        assert!(!a.stale() && !b.stale());
        assert_eq!(a.shown(), b.shown());
    }
    assert_eq!(jump_pool.slot(0).shown(), Some((4, 4, 4, 4)));
    assert_eq!(jump_pool.slot(1).shown(), None);
    // both now continue with the same remaining stream
    assert_eq!(step.advance(4, 2), Ok(Message::Finished));
    assert_eq!(jump.advance(4, 2), Ok(Message::Finished));
}

#[test]
fn skipped_frames_are_never_shown() {
    let frames = vec![rect(1, 1, 1, 1), rect(2, 2, 2, 2), rect(3, 3, 3, 3), None, rect(7, 8, 9, 10), None];
    let mut sched = Scheduler::new(frames, 0);
    // the first frame would not fit one window, but it is skipped, not shown
    assert_eq!(sched.advance(1, 1), Ok(Message::Frame(vec![WinCoords { x: 7, y: 8, w: 9, h: 10 }])));
}

#[test]
fn empty_frame_hides_everything() {
    let frames = vec![rect(1, 2, 3, 4), None, None, None];
    let mut sched = Scheduler::new(frames, 0);
    let mut wins = pool(2);
    assert!(matches!(sched.tick(&mut wins, 0, 64, 48), Ok(Tick::Drawn(_))));
    let batch = match sched.tick(&mut wins, 1, 64, 48) {
        Ok(Tick::Drawn(b)) => b,
        _ => panic!("empty frame not drawn"),
    };
    assert_eq!(batch.ops.len(), 1);
    assert_eq!(batch.ops[0].hwnd, 0);
    assert_eq!(batch.ops[0].visibility, Visibility::Hide);
}

#[test]
fn unterminated_last_frame_is_not_drawn() {
    let frames = vec![rect(1, 2, 3, 4)];
    let mut sched = Scheduler::new(frames, 0);
    assert_eq!(sched.advance(0, 4), Ok(Message::Finished));
}
