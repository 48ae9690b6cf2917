//! The clock-driven scheduler: maps audio-clock ticks to video frames.
use vstd::prelude::*;

use crate::frames::{after_frame, find_gap, frame_at, gap_from, has_frame, lemma_gap_from_bounds, AssetError, WinCoords};
use crate::pool::{all_committed, frame_applied, lemma_display_after_frame, stale_ops, BatchHandle, WindowCollection};
use crate::slot::SlotView;

verus! {

/// What one clock event asks of the window pool.
#[derive(Debug, PartialEq, Eq)]
pub enum Message {
    /// The clock has not reached the next frame yet.
    Idle,
    /// The rectangles of the frame to show now.
    Frame(Vec<WinCoords>),
    /// The frame stream is exhausted; playback is over.
    Finished,
}

/// The outcome of one clock event, as the model sees it.
pub enum Step {
    Idle,
    Frame(Seq<WinCoords>),
    Finished,
    Mismatch,
}

/// The scheduler's state: the frame stream, the tick the next frame is due
/// at, where the next frame starts, and whether playback is over.
pub struct SchedView {
    pub frames: Seq<Option<WinCoords>>,
    pub next_tick: int,
    pub cursor: int,
    pub finished: bool,
}

/// Where the stream stands after skipping `k` whole frames from `c`; `None`
/// when it runs out first.
pub open spec fn skip_frames(fs: Seq<Option<WinCoords>>, c: int, k: nat) -> Option<int>
    decreases k,
{
    if k == 0 {
        Some(c)
    } else if !has_frame(fs, c) {
        None
    } else {
        skip_frames(fs, after_frame(fs, c), (k - 1) as nat)
    }
}

/// The terminal state reached at clock tick `t`.
pub open spec fn finished_at(v: SchedView, t: int) -> SchedView {
    SchedView { next_tick: t, cursor: v.frames.len() as int, finished: true, ..v }
}

/// One clock event at tick `t` for a pool of `slots` windows: the state after
/// it and what it asks of the pool.
///
/// Before the clock reaches the next frame nothing happens. Frames whose tick
/// has passed are skipped whole, without being shown. Then the frame due now
/// is handed out, unless the stream runs out first (playback is over) or the
/// frame needs more windows than the pool has (a fatal mismatch).
pub open spec fn advance(v: SchedView, slots: nat, t: int) -> (SchedView, Step) {
    if v.finished {
        (v, Step::Finished)
    } else if t < v.next_tick {
        (v, Step::Idle)
    } else {
        match skip_frames(v.frames, v.cursor, (t - v.next_tick) as nat) {
            None => (finished_at(v, t), Step::Finished),
            Some(c) => if !has_frame(v.frames, c) {
                (finished_at(v, t), Step::Finished)
            } else if frame_at(v.frames, c).len() > slots {
                (finished_at(v, t), Step::Mismatch)
            } else {
                (
                    SchedView { next_tick: t + 1, cursor: after_frame(v.frames, c), ..v },
                    Step::Frame(frame_at(v.frames, c)),
                )
            },
        }
    }
}

/// The exec result `r` is the model's step `st`.
pub open spec fn step_is(r: Result<Message, AssetError>, st: Step) -> bool {
    match st {
        Step::Idle => r == Ok::<Message, AssetError>(Message::Idle),
        Step::Finished => r == Ok::<Message, AssetError>(Message::Finished),
        Step::Mismatch => r == Err::<Message, AssetError>(AssetError::AssetPoolMismatch),
        Step::Frame(rects) => r matches Ok(Message::Frame(v)) && v@ == rects,
    }
}

/// Skipping `a` frames and then `b` more is skipping `a + b` frames.
pub proof fn lemma_skip_frames_add(fs: Seq<Option<WinCoords>>, c: int, a: nat, b: nat)
    ensures
        skip_frames(fs, c, a + b) == match skip_frames(fs, c, a) {
            Some(d) => skip_frames(fs, d, b),
            None => None,
        },
    decreases a,
{
    if a > 0 && has_frame(fs, c) {
        lemma_skip_frames_add(fs, after_frame(fs, c), (a - 1) as nat, b);
        assert((a + b - 1) as nat == ((a - 1) as nat + b) as nat);
    }
}

/// Catch-up does not depend on how the clock events fall: showing the frame
/// due at `t1` and then taking an event at a later tick `t2` ends in the same
/// state, with the same frame handed out, as taking only the event at `t2`.
/// Frames skipped on the way are never shown either way.
pub proof fn lemma_catch_up(v: SchedView, slots: nat, t1: int, t2: int)
    requires
        !v.finished,
        0 <= v.cursor <= v.frames.len(),
        v.next_tick <= t1 < t2,
        advance(v, slots, t1).1 is Frame,
    ensures
        advance(advance(v, slots, t1).0, slots, t2) == advance(v, slots, t2),
{
    let a = (t1 - v.next_tick) as nat;
    let b = (t2 - t1 - 1) as nat;
    let c = skip_frames(v.frames, v.cursor, a)->0;
    lemma_skip_frames_add(v.frames, v.cursor, a, 1);
    lemma_skip_frames_add(v.frames, v.cursor, a + 1, b);
    assert(skip_frames(v.frames, c, 1) == Some(after_frame(v.frames, c))) by {
        assert(skip_frames(v.frames, after_frame(v.frames, c), 0) == Some(after_frame(v.frames, c)));
    }
    assert((t2 - v.next_tick) as nat == a + 1 + b);
}

/// What a clock event did to the window pool.
pub enum Tick {
    /// Nothing was due.
    Idle,
    /// A frame was assigned and committed; the batch is for the platform.
    Drawn(BatchHandle),
    /// Playback is over.
    Finished,
}

/// The pool after a clock event whose step is `st`: a frame is assigned and
/// committed, anything else leaves the pool alone.
pub open spec fn pool_after(p: Seq<SlotView>, st: Step, sw: u16, sh: u16) -> Seq<SlotView> {
    match st {
        Step::Frame(rects) => all_committed(frame_applied(p, rects, sw, sh)),
        _ => p,
    }
}

/// The exec result `r` of a clock event on a pool `p` is the model's step `st`.
pub open spec fn tick_is(r: Result<Tick, AssetError>, p: Seq<SlotView>, st: Step, sw: u16, sh: u16) -> bool {
    match st {
        Step::Idle => r matches Ok(Tick::Idle),
        Step::Finished => r matches Ok(Tick::Finished),
        Step::Mismatch => r matches Err(AssetError::AssetPoolMismatch),
        Step::Frame(rects) => r matches Ok(Tick::Drawn(b)) && b.ops@ == stale_ops(
            frame_applied(p, rects, sw, sh),
        ),
    }
}

/// Delivering the clock events at `t1` and then `t2`, both of which show a
/// frame, leaves the platform showing exactly what delivering only the event
/// at `t2` does, whatever the pool held before.
pub proof fn lemma_catch_up_display(v: SchedView, p: Seq<SlotView>, t1: int, t2: int, sw: u16, sh: u16)
    requires
        !v.finished,
        0 <= v.cursor <= v.frames.len(),
        v.next_tick <= t1 < t2,
        advance(v, p.len(), t1).1 is Frame,
        advance(v, p.len(), t2).1 is Frame,
    ensures
        ({
            let (v1, s1) = advance(v, p.len(), t1);
            let (v2, s2) = advance(v1, p.len(), t2);
            let p2 = pool_after(pool_after(p, s1, sw, sh), s2, sw, sh);
            let q = pool_after(p, advance(v, p.len(), t2).1, sw, sh);
            &&& v2 == advance(v, p.len(), t2).0
            &&& p2.len() == q.len()
            &&& forall|k: int| 0 <= k < q.len() ==> (#[trigger] p2[k]).displayed() == q[k].displayed()
        }),
{
    lemma_catch_up(v, p.len(), t1, t2);
    let (v1, s1) = advance(v, p.len(), t1);
    let p1 = pool_after(p, s1, sw, sh);
    let rects = advance(v, p.len(), t2).1->Frame_0;
    lemma_display_after_frame(p, rects, sw, sh);
    lemma_display_after_frame(p1, rects, sw, sh);
}

/// Consumes frames of the stream, one clock event at a time.
pub struct Scheduler {
    frames: Vec<Option<WinCoords>>,
    next_tick: u64,
    cursor: usize,
    finished: bool,
}

impl View for Scheduler {
    type V = SchedView;

    closed spec fn view(&self) -> SchedView {
        SchedView {
            frames: self.frames@,
            next_tick: self.next_tick as int,
            cursor: self.cursor as int,
            finished: self.finished,
        }
    }
}

impl Scheduler {
    /// The cursor stays in the stream, and the ticks left for the rest of it
    /// fit the clock's counter.
    #[verifier::type_invariant]
    closed spec fn in_bounds(self) -> bool {
        &&& self.cursor <= self.frames@.len()
        &&& self.next_tick + (self.frames@.len() - self.cursor) <= u64::MAX
    }

    /// A scheduler at the start of `frames`, with the first frame due at
    /// `start_tick`.
    pub fn new(frames: Vec<Option<WinCoords>>, start_tick: u64) -> (r: Self)
        requires
            start_tick + frames@.len() <= u64::MAX,
        ensures
            r@ == (SchedView { frames: frames@, next_tick: start_tick as int, cursor: 0, finished: false }),
    {
        Scheduler { frames, next_tick: start_tick, cursor: 0, finished: false }
    }

    pub fn next_tick(&self) -> (r: u64)
        ensures
            r == self@.next_tick,
    {
        self.next_tick
    }

    pub fn is_finished(&self) -> (r: bool)
        ensures
            r == self@.finished,
    {
        self.finished
    }

    /// Handles one clock event at `current_tick` for a pool of `slots`
    /// windows, as `advance` describes.
    pub fn advance(&mut self, current_tick: u64, slots: usize) -> (r: Result<Message, AssetError>)
        ensures
            final(self)@ == advance(old(self)@, slots as nat, current_tick as int).0,
            step_is(r, advance(old(self)@, slots as nat, current_tick as int).1),
            0 <= old(self)@.cursor <= old(self)@.frames.len(),
    {
        proof {
            use_type_invariant(&*self);
        }
        if self.finished {
            return Ok(Message::Finished);
        }
        if current_tick < self.next_tick {
            return Ok(Message::Idle);
        }
        let ghost v0 = self@;
        let ghost fs = self.frames@;
        let len = self.frames.len();
        let mut c: usize = self.cursor;
        let mut nt: u64 = self.next_tick;
        while nt < current_tick
            invariant
                self@ == v0,
                old(self)@ == v0,
                fs == self.frames@,
                len == fs.len(),
                v0.cursor <= c <= len,
                v0.next_tick <= nt <= current_tick,
                nt + (len - c) <= u64::MAX,
                !v0.finished,
                skip_frames(fs, v0.cursor, (nt - v0.next_tick) as nat) == Some(c as int),
            decreases current_tick - nt,
        {
            let g = find_gap(&self.frames, c);
            proof {
                lemma_gap_from_bounds(fs, c as int);
                lemma_skip_frames_add(fs, v0.cursor, (nt - v0.next_tick) as nat, 1);
                assert(skip_frames(fs, after_frame(fs, c as int), 0) == Some(after_frame(fs, c as int)));
            }
            if g == len {
                proof {
                    let a = (nt - v0.next_tick) as nat;
                    let b = (current_tick - nt) as nat;
                    lemma_skip_frames_add(fs, v0.cursor, a, b);
                    assert(!has_frame(fs, c as int));
                    assert(skip_frames(fs, c as int, b) is None);
                    assert((current_tick - v0.next_tick) as nat == a + b);
                    assert(skip_frames(fs, v0.cursor, a + b) is None);
                }
                self.finish(current_tick);
                return Ok(Message::Finished);
            }
            c = g + 1;
            nt = nt + 1;
            assert(((nt - v0.next_tick) as nat) == ((nt - 1 - v0.next_tick) as nat + 1) as nat);
        }
        let g = find_gap(&self.frames, c);
        proof {
            lemma_gap_from_bounds(fs, c as int);
        }
        if g == len {
            self.finish(current_tick);
            return Ok(Message::Finished);
        }
        if g - c > slots {
            self.finish(current_tick);
            return Err(AssetError::AssetPoolMismatch);
        }
        let mut rects: Vec<WinCoords> = Vec::with_capacity(g - c);
        let mut j: usize = c;
        while j < g
            invariant
                c <= j <= g,
                g < len,
                len == fs.len(),
                fs == self.frames@,
                g == gap_from(fs, c as int),
                forall|k: int| c <= k < g ==> #[trigger] fs[k] is Some,
                rects@ =~= frame_at(fs, c as int).subrange(0, j - c),
            decreases g - j,
        {
            if let Some(r) = self.frames[j] {
                rects.push(r);
            }
            j = j + 1;
            assert(rects@ =~= frame_at(fs, c as int).subrange(0, j - c));
        }
        assert(rects@ =~= frame_at(fs, c as int));
        self.cursor = g + 1;
        self.next_tick = current_tick + 1;
        Ok(Message::Frame(rects))
    }

    /// Handles one clock event on the pool: the frame due, if any, is
    /// assigned to the pool, scaled onto a `sw` by `sh` surface, and all its
    /// changes are committed in one batch. When nothing is due, playback is
    /// over, or the frame does not fit the pool, the pool is left alone and
    /// no batch is made.
    pub fn tick(&mut self, pool: &mut WindowCollection, current_tick: u64, sw: u16, sh: u16) -> (r: Result<Tick, AssetError>)
        ensures
            final(self)@ == advance(old(self)@, old(pool)@.len(), current_tick as int).0,
            final(pool)@ == pool_after(old(pool)@, advance(old(self)@, old(pool)@.len(), current_tick as int).1, sw, sh),
            tick_is(r, old(pool)@, advance(old(self)@, old(pool)@.len(), current_tick as int).1, sw, sh),
    {
        let slots = pool.len();
        match self.advance(current_tick, slots) {
            Ok(Message::Idle) => Ok(Tick::Idle),
            Ok(Message::Finished) => Ok(Tick::Finished),
            Ok(Message::Frame(rects)) => {
                pool.apply_frame(rects.as_slice(), sw, sh);
                let batch = pool.draw();
                Ok(Tick::Drawn(batch))
            },
            Err(e) => Err(e),
        }
    }

    fn finish(&mut self, t: u64)
        ensures
            final(self)@ == finished_at(old(self)@, t as int),
    {
        proof {
            use_type_invariant(&*self);
        }
        self.cursor = self.frames.len();
        self.next_tick = t;
        self.finished = true;
    }
}

} // verus!
