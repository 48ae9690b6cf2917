//! One pooled window: the placement we want against the one the platform shows.
use vstd::prelude::*;

verus! {

/// What a commit does to a window's visibility.
#[derive(Debug, Clone, Copy, PartialEq, Eq, Structural)]
pub enum Visibility {
    Keep,
    Show,
    Hide,
}

/// One window's share of a batched platform update.
///
/// `apply_move` and `apply_size` say whether the position and the size are to
/// be re-applied; `redraw` asks the platform to repaint the window.
#[derive(Debug, Clone, Copy, PartialEq, Eq, Structural)]
pub struct WindowOp {
    pub hwnd: isize,
    pub x: i32,
    pub y: i32,
    pub w: i32,
    pub h: i32,
    pub apply_move: bool,
    pub apply_size: bool,
    pub visibility: Visibility,
    pub redraw: bool,
}

impl WindowOp {
    /// The operation changes nothing on the platform.
    pub open spec fn is_noop(self) -> bool {
        !self.apply_move && !self.apply_size && self.visibility == Visibility::Keep && !self.redraw
    }
}

/// The state of a window slot: the desired placement and the one that was last
/// committed.
///
/// A commit that hides a window holds back its move and resize, yet records
/// the desired placement as committed; `geometry_deferred` then says that the
/// platform may still hold an older placement, which the next commit that
/// leaves the window visible re-applies.
pub struct SlotView {
    pub hwnd: isize,
    pub x: i32,
    pub y: i32,
    pub w: i32,
    pub h: i32,
    pub visible: bool,
    pub shown_x: i32,
    pub shown_y: i32,
    pub shown_w: i32,
    pub shown_h: i32,
    pub shown_visible: bool,
    pub geometry_deferred: bool,
}

impl SlotView {
    /// The desired position differs from the one last committed.
    pub open spec fn pos_stale(self) -> bool {
        self.x != self.shown_x || self.y != self.shown_y
    }

    /// The desired size differs from the one last committed.
    pub open spec fn size_stale(self) -> bool {
        self.w != self.shown_w || self.h != self.shown_h
    }

    /// The desired visibility differs from the one last committed.
    pub open spec fn visible_stale(self) -> bool {
        self.visible != self.shown_visible
    }

    pub open spec fn is_stale(self) -> bool {
        self.pos_stale() || self.size_stale() || self.visible_stale()
    }

    /// The same slot with the desired placement left as it is.
    pub open spec fn same_desired(self, o: SlotView) -> bool {
        self.hwnd == o.hwnd && self.x == o.x && self.y == o.y && self.w == o.w && self.h == o.h
            && self.visible == o.visible
    }

    /// The same slot with what was committed left as it is.
    pub open spec fn same_shown(self, o: SlotView) -> bool {
        self.hwnd == o.hwnd && self.shown_x == o.shown_x && self.shown_y == o.shown_y
            && self.shown_w == o.shown_w && self.shown_h == o.shown_h && self.shown_visible
            == o.shown_visible && self.geometry_deferred == o.geometry_deferred
    }

    /// The window is being hidden by this commit.
    pub open spec fn hiding(self) -> bool {
        self.visible_stale() && !self.visible
    }

    /// What a commit hands to the platform for this slot. A clean slot gets
    /// nothing. A window that is being hidden gets no move or resize; any
    /// other stale slot gets its changed position and size, and all of its
    /// held-back placement. A window that is being shown is always repainted.
    pub open spec fn commit_op(self) -> WindowOp {
        WindowOp {
            hwnd: self.hwnd,
            x: self.x,
            y: self.y,
            w: self.w,
            h: self.h,
            apply_move: self.is_stale() && !self.hiding() && (self.pos_stale()
                || self.geometry_deferred),
            apply_size: self.is_stale() && !self.hiding() && (self.size_stale()
                || self.geometry_deferred),
            visibility: if !self.visible_stale() {
                Visibility::Keep
            } else if self.visible {
                Visibility::Show
            } else {
                Visibility::Hide
            },
            redraw: self.visible_stale() && self.visible,
        }
    }

    /// The slot once the commit reached the platform: every desired value is
    /// recorded as committed, so no flag stays raised. When the commit hid the
    /// window and held back a changed placement, that is recorded in
    /// `geometry_deferred`; a commit that leaves the window visible, or moves
    /// and resizes it while hidden, clears it.
    pub open spec fn committed(self) -> SlotView {
        SlotView {
            shown_x: self.x,
            shown_y: self.y,
            shown_w: self.w,
            shown_h: self.h,
            shown_visible: self.visible,
            geometry_deferred: if !self.is_stale() {
                self.geometry_deferred
            } else if self.hiding() {
                self.geometry_deferred || self.pos_stale() || self.size_stale()
            } else {
                false
            },
            ..self
        }
    }

    /// What the platform shows of the window: its placement when shown,
    /// `None` when hidden.
    pub open spec fn displayed(self) -> Option<(i32, i32, i32, i32)> {
        if self.shown_visible {
            Some((self.shown_x, self.shown_y, self.shown_w, self.shown_h))
        } else {
            None
        }
    }

    pub open spec fn with_pos(self, x: i32, y: i32) -> SlotView {
        SlotView { x, y, ..self }
    }

    pub open spec fn with_size(self, w: i32, h: i32) -> SlotView {
        SlotView { w, h, ..self }
    }

    pub open spec fn with_visible(self, visible: bool) -> SlotView {
        SlotView { visible, ..self }
    }
}

/// Committing a clean slot leaves it as it is.
pub proof fn lemma_clean_commit(v: SlotView)
    requires
        !v.is_stale(),
    ensures
        v.committed() == v,
        v.commit_op().is_noop(),
{
}

/// One call of a slot's setters, as it acts on the slot's state.
pub enum SlotCall {
    Pos(i32, i32),
    Size(i32, i32),
    Visible(bool),
}

/// The state after one setter call.
pub open spec fn apply_call(v: SlotView, c: SlotCall) -> SlotView {
    match c {
        SlotCall::Pos(x, y) => v.with_pos(x, y),
        SlotCall::Size(w, h) => v.with_size(w, h),
        SlotCall::Visible(b) => v.with_visible(b),
    }
}

/// The state after a sequence of setter calls, in order.
pub open spec fn apply_calls(v: SlotView, cs: Seq<SlotCall>) -> SlotView
    decreases cs.len(),
{
    if cs.len() == 0 {
        v
    } else {
        apply_call(apply_calls(v, cs.drop_last()), cs.last())
    }
}

/// Setter calls change only the desired placement, never what is shown.
pub proof fn lemma_calls_keep_shown(v: SlotView, cs: Seq<SlotCall>)
    ensures
        apply_calls(v, cs).same_shown(v),
    decreases cs.len(),
{
    if cs.len() > 0 {
        lemma_calls_keep_shown(v, cs.drop_last());
    }
}

/// Setter calls that leave the desired placement where it was, however many
/// and in whatever order, leave a clean slot clean: a value set and set back
/// within one tick is not stale.
pub proof fn lemma_no_net_change(v: SlotView, cs: Seq<SlotCall>)
    requires
        !v.is_stale(),
        apply_calls(v, cs).same_desired(v),
    ensures
        !apply_calls(v, cs).is_stale(),
{
    lemma_calls_keep_shown(v, cs);
}

/// A window slot: tracks the desired placement of one platform window and
/// which of its attributes have not reached the platform yet.
#[derive(Debug, Clone, Copy)]
pub struct DeferredWindow {
    hwnd: isize,
    x: i32,
    y: i32,
    pos_stale: bool,
    w: i32,
    h: i32,
    sz_stale: bool,
    visible: bool,
    visible_stale: bool,
    shown_x: i32,
    shown_y: i32,
    shown_w: i32,
    shown_h: i32,
    shown_visible: bool,
    geometry_deferred: bool,
}

impl View for DeferredWindow {
    type V = SlotView;

    closed spec fn view(&self) -> SlotView {
        SlotView {
            hwnd: self.hwnd,
            x: self.x,
            y: self.y,
            w: self.w,
            h: self.h,
            visible: self.visible,
            shown_x: self.shown_x,
            shown_y: self.shown_y,
            shown_w: self.shown_w,
            shown_h: self.shown_h,
            shown_visible: self.shown_visible,
            geometry_deferred: self.geometry_deferred,
        }
    }
}

impl DeferredWindow {
    /// Each staleness flag is set exactly when its attribute differs from the
    /// value last committed.
    #[verifier::type_invariant]
    closed spec fn flags_agree(self) -> bool {
        &&& self.pos_stale == self@.pos_stale()
        &&& self.sz_stale == self@.size_stale()
        &&& self.visible_stale == self@.visible_stale()
        &&& self.geometry_deferred ==> !self.shown_visible
    }

    /// A slot for a freshly created, still hidden platform window placed at
    /// `x, y` with size `w, h`. The slot wants the window shown.
    pub fn new_from_hwnd(hwnd: isize, x: i32, y: i32, w: i32, h: i32) -> (r: Self)
        ensures
            r@ == (SlotView {
                hwnd,
                x,
                y,
                w,
                h,
                visible: true,
                shown_x: x,
                shown_y: y,
                shown_w: w,
                shown_h: h,
                shown_visible: false,
                geometry_deferred: false,
            }),
    {
        DeferredWindow {
            hwnd,
            x,
            y,
            pos_stale: false,
            w,
            h,
            sz_stale: false,
            visible: true,
            visible_stale: true,
            shown_x: x,
            shown_y: y,
            shown_w: w,
            shown_h: h,
            shown_visible: false,
            geometry_deferred: false,
        }
    }

    /// A slot for a window created at the default place and size.
    pub fn new(hwnd: isize) -> (r: Self)
        ensures
            r@ == (SlotView {
                hwnd,
                x: 10,
                y: 10,
                w: crate::BASE_WIDTH as i32,
                h: crate::BASE_HEIGHT as i32,
                visible: true,
                shown_x: 10,
                shown_y: 10,
                shown_w: crate::BASE_WIDTH as i32,
                shown_h: crate::BASE_HEIGHT as i32,
                shown_visible: false,
                geometry_deferred: false,
            }),
    {
        Self::new_from_hwnd(hwnd, 10, 10, crate::BASE_WIDTH as i32, crate::BASE_HEIGHT as i32)
    }

    pub fn hwnd(&self) -> (r: isize)
        ensures
            r == self@.hwnd,
    {
        self.hwnd
    }

    /// What the platform was last told to show: the window's placement when
    /// shown, `None` when hidden.
    pub fn shown(&self) -> (r: Option<(i32, i32, i32, i32)>)
        ensures
            r == self@.displayed(),
    {
        if self.shown_visible {
            Some((self.shown_x, self.shown_y, self.shown_w, self.shown_h))
        } else {
            None
        }
    }

    /// Sets the desired position.
    pub fn set_pos(&mut self, x: i32, y: i32)
        ensures
            final(self)@ == old(self)@.with_pos(x, y),
    {
        proof {
            use_type_invariant(&*self);
        }
        let pos_stale = x != self.shown_x || y != self.shown_y;
        *self = DeferredWindow { x, y, pos_stale, ..*self };
    }

    /// Sets the desired size.
    pub fn set_sz(&mut self, w: i32, h: i32)
        ensures
            final(self)@ == old(self)@.with_size(w, h),
    {
        proof {
            use_type_invariant(&*self);
        }
        let sz_stale = w != self.shown_w || h != self.shown_h;
        *self = DeferredWindow { w, h, sz_stale, ..*self };
    }

    /// Sets the desired visibility.
    pub fn set_visible(&mut self, visible: bool)
        ensures
            final(self)@ == old(self)@.with_visible(visible),
    {
        proof {
            use_type_invariant(&*self);
        }
        let visible_stale = visible != self.shown_visible;
        *self = DeferredWindow { visible, visible_stale, ..*self };
    }

    /// Some attribute has not reached the platform yet.
    pub fn stale(&self) -> (r: bool)
        ensures
            r == self@.is_stale(),
    {
        proof {
            use_type_invariant(self);
        }
        self.pos_stale || self.sz_stale || self.visible_stale
    }

    /// Commits the slot: returns what the platform must apply and marks every
    /// attribute as shown. A slot with nothing stale commits a no-op and stays
    /// as it is.
    pub fn draw(&mut self) -> (r: WindowOp)
        ensures
            r == old(self)@.commit_op(),
            final(self)@ == old(self)@.committed(),
            !final(self)@.is_stale(),
            !old(self)@.is_stale() ==> r.is_noop() && final(self)@ == old(self)@,
    {
        proof {
            use_type_invariant(&*self);
        }
        let stale = self.pos_stale || self.sz_stale || self.visible_stale;
        let hiding = self.visible_stale && !self.visible;
        let visibility = if !self.visible_stale {
            Visibility::Keep
        } else if self.visible {
            Visibility::Show
        } else {
            Visibility::Hide
        };
        let op = WindowOp {
            hwnd: self.hwnd,
            x: self.x,
            y: self.y,
            w: self.w,
            h: self.h,
            apply_move: stale && !hiding && (self.pos_stale || self.geometry_deferred),
            apply_size: stale && !hiding && (self.sz_stale || self.geometry_deferred),
            visibility,
            redraw: self.visible_stale && self.visible,
        };
        let geometry_deferred = if !stale {
            self.geometry_deferred
        } else if hiding {
            self.geometry_deferred || self.pos_stale || self.sz_stale
        } else {
            false
        };
        let shown = DeferredWindow {
            shown_x: self.x,
            shown_y: self.y,
            shown_w: self.w,
            shown_h: self.h,
            shown_visible: self.visible,
            geometry_deferred,
            pos_stale: false,
            sz_stale: false,
            visible_stale: false,
            ..*self
        };
        *self = shown;
        op
    }
}

} // verus!
