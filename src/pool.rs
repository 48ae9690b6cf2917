//! The window pool and the batched commit of its stale slots.
use vstd::prelude::*;

use crate::frames::WinCoords;
use crate::slot::{apply_call, lemma_clean_commit, DeferredWindow, SlotCall, SlotView, WindowOp};

verus! {

/// Number of stale slots in a pool.
pub open spec fn count_stale(s: Seq<SlotView>) -> nat
    decreases s.len(),
{
    if s.len() == 0 {
        0
    } else {
        count_stale(s.drop_last()) + if s.last().is_stale() {
            1nat
        } else {
            0nat
        }
    }
}

/// What a commit of the pool hands to the platform: the operation of each
/// stale slot, in pool order.
pub open spec fn stale_ops(s: Seq<SlotView>) -> Seq<WindowOp>
    decreases s.len(),
{
    if s.len() == 0 {
        Seq::empty()
    } else if s.last().is_stale() {
        stale_ops(s.drop_last()).push(s.last().commit_op())
    } else {
        stale_ops(s.drop_last())
    }
}

/// The pool once every slot is committed.
pub open spec fn all_committed(s: Seq<SlotView>) -> Seq<SlotView> {
    s.map_values(|v: SlotView| v.committed())
}

pub proof fn lemma_count_stale(s: Seq<SlotView>)
    ensures
        count_stale(s) <= s.len(),
        count_stale(s) == stale_ops(s).len(),
        count_stale(s) == 0 <==> forall|i: int| 0 <= i < s.len() ==> !(#[trigger] s[i]).is_stale(),
    decreases s.len(),
{
    if s.len() > 0 {
        let p = s.drop_last();
        lemma_count_stale(p);
        if count_stale(s) == 0 {
            assert forall|i: int| 0 <= i < s.len() implies !(#[trigger] s[i]).is_stale() by {
                if i < s.len() - 1 {
                    assert(s[i] == p[i]);
                }
            }
        }
        if forall|i: int| 0 <= i < s.len() ==> !(#[trigger] s[i]).is_stale() {
            assert forall|i: int| 0 <= i < p.len() implies !(#[trigger] p[i]).is_stale() by {
                assert(s[i] == p[i]);
            }
            assert(!s[s.len() - 1].is_stale());
        }
    }
}

/// A pool-wide setter call: slot index and call.
pub open spec fn pool_apply(p: Seq<SlotView>, calls: Seq<(int, SlotCall)>) -> Seq<SlotView>
    decreases calls.len(),
{
    if calls.len() == 0 {
        p
    } else {
        let q = pool_apply(p, calls.drop_last());
        let (i, c) = calls.last();
        if 0 <= i < q.len() {
            q.update(i, apply_call(q[i], c))
        } else {
            q
        }
    }
}

pub proof fn lemma_pool_calls_keep_shown(p: Seq<SlotView>, calls: Seq<(int, SlotCall)>)
    ensures
        pool_apply(p, calls).len() == p.len(),
        forall|i: int| 0 <= i < p.len() ==> (#[trigger] pool_apply(p, calls)[i]).same_shown(p[i]),
    decreases calls.len(),
{
    if calls.len() > 0 {
        lemma_pool_calls_keep_shown(p, calls.drop_last());
    }
}

/// Setter calls on a clean pool that leave every slot's desired placement
/// where it was leave no slot stale and nothing to commit.
pub proof fn lemma_pool_no_net_change(p: Seq<SlotView>, calls: Seq<(int, SlotCall)>)
    requires
        count_stale(p) == 0,
        forall|i: int| 0 <= i < p.len() ==> (#[trigger] pool_apply(p, calls)[i]).same_desired(p[i]),
    ensures
        count_stale(pool_apply(p, calls)) == 0,
        forall|i: int| 0 <= i < p.len() ==> !(#[trigger] pool_apply(p, calls)[i]).is_stale(),
{
    let q = pool_apply(p, calls);
    lemma_count_stale(p);
    lemma_pool_calls_keep_shown(p, calls);
    assert forall|i: int| 0 <= i < q.len() implies !(#[trigger] q[i]).is_stale() by {
        assert(!p[i].is_stale());
    }
    lemma_count_stale(q);
}

/// `v` units of a canvas side `base` long, on a surface side `extent` long.
pub open spec fn scaled(v: u8, extent: u16, base: u8) -> int {
    v as int * extent as int / base as int
}

/// A slot placed on the surface at the rectangle `r` and made visible.
pub open spec fn placed(v: SlotView, r: WinCoords, sw: u16, sh: u16) -> SlotView {
    SlotView {
        x: scaled(r.x, sw, crate::BASE_WIDTH) as i32,
        y: scaled(r.y, sh, crate::BASE_HEIGHT) as i32,
        w: scaled(r.w, sw, crate::BASE_WIDTH) as i32,
        h: scaled(r.h, sh, crate::BASE_HEIGHT) as i32,
        visible: true,
        ..v
    }
}

/// Slot `k` of a pool once a frame of `rects` is assigned: the first slots
/// take the rectangles in order, the others are hidden.
pub open spec fn frame_slot(v: SlotView, rects: Seq<WinCoords>, k: int, sw: u16, sh: u16) -> SlotView {
    if k < rects.len() {
        placed(v, rects[k], sw, sh)
    } else {
        v.with_visible(false)
    }
}

/// The pool once a frame of `rects` is assigned to it.
pub open spec fn frame_applied(p: Seq<SlotView>, rects: Seq<WinCoords>, sw: u16, sh: u16) -> Seq<SlotView> {
    Seq::new(p.len(), |k: int| frame_slot(p[k], rects, k, sw, sh))
}

/// What the platform shows of slot `k` once a frame of `rects` is committed.
pub open spec fn frame_display(rects: Seq<WinCoords>, k: int, sw: u16, sh: u16) -> Option<(i32, i32, i32, i32)> {
    if k < rects.len() {
        Some((
            scaled(rects[k].x, sw, crate::BASE_WIDTH) as i32,
            scaled(rects[k].y, sh, crate::BASE_HEIGHT) as i32,
            scaled(rects[k].w, sw, crate::BASE_WIDTH) as i32,
            scaled(rects[k].h, sh, crate::BASE_HEIGHT) as i32,
        ))
    } else {
        None
    }
}

/// Once a frame is assigned and committed, what the platform shows depends on
/// the frame alone, whatever the pool held before.
pub proof fn lemma_display_after_frame(p: Seq<SlotView>, rects: Seq<WinCoords>, sw: u16, sh: u16)
    ensures
        all_committed(frame_applied(p, rects, sw, sh)).len() == p.len(),
        forall|k: int| 0 <= k < p.len() ==> (#[trigger] all_committed(frame_applied(p, rects, sw, sh))[k]).displayed()
            == frame_display(rects, k, sw, sh),
{
}

/// Scales `v` units of a canvas side `base` long onto a surface side `extent`
/// long.
fn scale(v: u8, extent: u16, base: u8) -> (r: i32)
    requires
        base > 0,
    ensures
        r as int == scaled(v, extent, base),
{
    proof {
        assert((v as int) * (extent as int) <= 255 * 65535) by (nonlinear_arith)
            requires
                v <= 255,
                extent <= 65535,
        ;
    }
    let p: u32 = (v as u32) * (extent as u32);
    proof {
        assert(p as int / base as int <= p as int) by (nonlinear_arith)
            requires
                base > 0,
                p >= 0,
        ;
    }
    (p / (base as u32)) as i32
}

/// A batched platform update: the operations of one commit, in pool order.
pub struct BatchHandle {
    pub ops: Vec<WindowOp>,
}

impl BatchHandle {
    /// An empty batch with room for `capacity` operations.
    pub fn begin(capacity: usize) -> (r: Self)
        ensures
            r.ops@.len() == 0,
    {
        BatchHandle { ops: Vec::with_capacity(capacity) }
    }
}

/// The pool of window slots, one per platform window, in a fixed order.
pub struct WindowCollection {
    wins: Vec<DeferredWindow>,
}

impl View for WindowCollection {
    type V = Seq<SlotView>;

    closed spec fn view(&self) -> Seq<SlotView> {
        self.wins@.map_values(|w: DeferredWindow| w@)
    }
}

impl WindowCollection {
    pub fn new(wins: Vec<DeferredWindow>) -> (r: Self)
        ensures
            r@ == wins@.map_values(|w: DeferredWindow| w@),
    {
        WindowCollection { wins }
    }

    /// Number of slots in the pool.
    pub fn len(&self) -> (r: usize)
        ensures
            r == self@.len(),
    {
        self.wins.len()
    }

    /// Number of stale slots: the size of the next batch.
    pub fn changed(&self) -> (r: usize)
        ensures
            r == count_stale(self@),
    {
        let mut n: usize = 0;
        let mut i: usize = 0;
        while i < self.wins.len()
            invariant
                i <= self@.len(),
                self@.len() == self.wins@.len(),
                n == count_stale(self@.subrange(0, i as int)),
                n <= i,
            decreases self@.len() - i,
        {
            let s = self.wins[i].stale();
            proof {
                let sub = self@.subrange(0, i + 1);
                assert(sub.drop_last() =~= self@.subrange(0, i as int));
                assert(sub.last() == self.wins@[i as int]@);
            }
            if s {
                n = n + 1;
            }
            i = i + 1;
        }
        assert(self@.subrange(0, self@.len() as int) =~= self@);
        n
    }

    /// The slot at `i`.
    pub fn slot(&self, i: usize) -> (r: &DeferredWindow)
        requires
            i < self@.len(),
        ensures
            r@ == self@[i as int],
    {
        &self.wins[i]
    }

    /// Sets the desired position of slot `i`.
    pub fn set_pos(&mut self, i: usize, x: i32, y: i32)
        requires
            i < old(self)@.len(),
        ensures
            final(self)@ == old(self)@.update(i as int, apply_call(old(self)@[i as int], SlotCall::Pos(x, y))),
    {
        self.wins[i].set_pos(x, y);
        assert(self@ =~= old(self)@.update(i as int, apply_call(old(self)@[i as int], SlotCall::Pos(x, y))));
    }

    /// Sets the desired size of slot `i`.
    pub fn set_sz(&mut self, i: usize, w: i32, h: i32)
        requires
            i < old(self)@.len(),
        ensures
            final(self)@ == old(self)@.update(i as int, apply_call(old(self)@[i as int], SlotCall::Size(w, h))),
    {
        self.wins[i].set_sz(w, h);
        assert(self@ =~= old(self)@.update(i as int, apply_call(old(self)@[i as int], SlotCall::Size(w, h))));
    }

    /// Sets the desired visibility of slot `i`.
    pub fn set_visible(&mut self, i: usize, visible: bool)
        requires
            i < old(self)@.len(),
        ensures
            final(self)@ == old(self)@.update(i as int, apply_call(old(self)@[i as int], SlotCall::Visible(visible))),
    {
        self.wins[i].set_visible(visible);
        assert(self@ =~= old(self)@.update(i as int, apply_call(old(self)@[i as int], SlotCall::Visible(visible))));
    }

    /// Assigns a frame to the pool: slot `k` takes the `k`-th rectangle,
    /// scaled from the logical canvas onto a `sw` by `sh` surface, and is made
    /// visible; the slots left over are hidden.
    pub fn apply_frame(&mut self, rects: &[WinCoords], sw: u16, sh: u16)
        requires
            rects@.len() <= old(self)@.len(),
        ensures
            final(self)@ == frame_applied(old(self)@, rects@, sw, sh),
    {
        let ghost old_view = self@;
        let mut i: usize = 0;
        while i < self.wins.len()
            invariant
                i <= self@.len(),
                self@.len() == old_view.len(),
                self@.len() == self.wins@.len(),
                rects@.len() <= old_view.len(),
                forall|k: int| 0 <= k < i ==> (#[trigger] self.wins@[k])@ == frame_slot(old_view[k], rects@, k, sw, sh),
                forall|k: int| i <= k < self@.len() ==> (#[trigger] self.wins@[k])@ == old_view[k],
            decreases self@.len() - i,
        {
            if i < rects.len() {
                let r = rects[i];
                let x = scale(r.x, sw, crate::BASE_WIDTH);
                let y = scale(r.y, sh, crate::BASE_HEIGHT);
                let w = scale(r.w, sw, crate::BASE_WIDTH);
                let h = scale(r.h, sh, crate::BASE_HEIGHT);
                self.wins[i].set_visible(true);
                self.wins[i].set_pos(x, y);
                self.wins[i].set_sz(w, h);
            } else {
                self.wins[i].set_visible(false);
            }
            i = i + 1;
        }
        assert(self@ =~= frame_applied(old_view, rects@, sw, sh));
    }

    /// Commits every stale slot in one batch. Nothing is done when no slot is
    /// stale; otherwise the batch holds the operation of each stale slot, in
    /// pool order, and afterwards no slot is stale.
    pub fn draw(&mut self) -> (r: BatchHandle)
        ensures
            r.ops@ == stale_ops(old(self)@),
            r.ops@.len() == count_stale(old(self)@),
            final(self)@ == all_committed(old(self)@),
            count_stale(final(self)@) == 0,
            count_stale(old(self)@) == 0 ==> final(self)@ == old(self)@ && r.ops@.len() == 0,
    {
        let ghost old_view = self@;
        proof {
            lemma_count_stale(old_view);
            assert forall|k: int| 0 <= k < old_view.len() implies !(#[trigger] all_committed(old_view)[k]).is_stale() by {}
            lemma_count_stale(all_committed(old_view));
        }
        let changed = self.changed();
        let mut batch = BatchHandle::begin(changed);
        if changed == 0 {
            proof {
                assert forall|k: int| 0 <= k < old_view.len() implies #[trigger] all_committed(old_view)[k] == old_view[k] by {
                    lemma_clean_commit(old_view[k]);
                }
                assert(all_committed(old_view) =~= old_view);
            }
            return batch;
        }
        let mut i: usize = 0;
        while i < self.wins.len()
            invariant
                i <= self@.len(),
                self@.len() == old_view.len(),
                self@.len() == self.wins@.len(),
                forall|k: int| 0 <= k < i ==> (#[trigger] self.wins@[k])@ == old_view[k].committed(),
                forall|k: int| i <= k < self@.len() ==> (#[trigger] self.wins@[k])@ == old_view[k],
                batch.ops@ == stale_ops(old_view.subrange(0, i as int)),
            decreases self@.len() - i,
        {
            proof {
                let sub = old_view.subrange(0, i + 1);
                assert(sub.drop_last() =~= old_view.subrange(0, i as int));
                assert(sub.last() == old_view[i as int]);
            }
            if self.wins[i].stale() {
                let op = self.wins[i].draw();
                batch.ops.push(op);
            } else {
                proof {
                    lemma_clean_commit(old_view[i as int]);
                }
            }
            i = i + 1;
        }
        assert(old_view.subrange(0, old_view.len() as int) =~= old_view);
        assert(self@ =~= all_committed(old_view));
        batch
    }
}

} // verus!
