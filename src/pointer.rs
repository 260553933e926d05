use vstd::prelude::*;

verus! {

/// Pitch is held within plus or minus this many millidegrees (90 degrees).
pub const PITCH_LIMIT: i64 = 90_000;

/// Default sensitivity: 0.1 degree, in millidegrees, per count of motion.
pub const DEFAULT_SENSITIVITY: u32 = 100;

/// A pointing-device event, as the pointer state consumes it. Motion is in
/// device counts; scroll amounts are `f32` bit patterns, passed through as is.
#[derive(Clone, Copy, Debug, PartialEq, Eq, Structural)]
pub enum MouseEvent {
    Moved { dx: i32, dy: i32 },
    LeftClick(bool),
    RightClick(bool),
    Scroll { x: u32, y: u32 },
    ScrollDiscrete { x: u32, y: u32 },
}

/// The auxiliary state published with the pointer each frame: the select and
/// grab levels, and the scroll of this frame as `f32` bit patterns.
#[derive(Clone, Copy, Debug, PartialEq, Eq, Structural)]
pub struct Datamap {
    pub select: bool,
    pub grab: bool,
    pub scroll_x: u32,
    pub scroll_y: u32,
}

impl Datamap {
    /// Nothing pressed and no scroll.
    pub fn new() -> (r: Datamap)
        ensures
            !r.select,
            !r.grab,
            r.scroll_x == 0,
            r.scroll_y == 0,
    {
        Datamap { select: false, grab: false, scroll_x: 0, scroll_y: 0 }
    }
}

/// Orientation of the pointer and its auxiliary state. Yaw and pitch are in
/// millidegrees; `sensitivity` is millidegrees per count of motion.
#[derive(Clone, Copy, Debug, PartialEq, Eq, Structural)]
pub struct PointerState {
    pub yaw: i64,
    pub pitch: i64,
    pub sensitivity: u32,
    pub datamap: Datamap,
}

pub open spec fn clamp(v: int, lo: int, hi: int) -> int {
    if v < lo {
        lo
    } else if v > hi {
        hi
    } else {
        v
    }
}

/// The vertical motion of an event, zero for anything but motion.
pub open spec fn motion_dy(e: MouseEvent) -> int {
    match e {
        MouseEvent::Moved { dx, dy } => dy as int,
        _ => 0,
    }
}

/// The effect of one event on yaw and the auxiliary state; yaw saturates at the
/// bounds of `i64`. Pitch is left alone: it follows the frame's summed motion.
pub open spec fn step(s: PointerState, e: MouseEvent) -> PointerState {
    match e {
        MouseEvent::Moved { dx, dy } => PointerState {
            yaw: clamp(s.yaw + dx * s.sensitivity, i64::MIN as int, i64::MAX as int) as i64,
            ..s
        },
        MouseEvent::LeftClick(c) => PointerState { datamap: Datamap { select: c, ..s.datamap }, ..s },
        MouseEvent::RightClick(c) => PointerState { datamap: Datamap { grab: c, ..s.datamap }, ..s },
        MouseEvent::Scroll { x, y } => PointerState {
            datamap: Datamap { scroll_x: x, scroll_y: y, ..s.datamap },
            ..s
        },
        MouseEvent::ScrollDiscrete { x, y } => PointerState {
            datamap: Datamap { scroll_x: x, scroll_y: y, ..s.datamap },
            ..s
        },
    }
}

/// `p` moved by `dy` counts of motion and clamped to the pitch limit.
pub open spec fn pitch_moved(p: i64, dy: int, sensitivity: u32) -> i64 {
    clamp(p + dy * sensitivity, -PITCH_LIMIT, PITCH_LIMIT as int) as i64
}

/// The events of `es` applied in order.
pub open spec fn fold(s: PointerState, es: Seq<MouseEvent>) -> PointerState
    decreases es.len(),
{
    if es.len() == 0 {
        s
    } else {
        step(fold(s, es.drop_last()), es.last())
    }
}

/// The state at the start of a frame: scroll back to zero, the rest kept.
pub open spec fn frame_start(s: PointerState) -> PointerState {
    PointerState { datamap: Datamap { scroll_x: 0, scroll_y: 0, ..s.datamap }, ..s }
}

/// The state after a frame that drained the events `es`: yaw and the
/// auxiliary state follow the events in order, and pitch moves by the frame's
/// summed vertical motion, clamped once.
pub open spec fn after_frame(s: PointerState, es: Seq<MouseEvent>) -> PointerState {
    PointerState {
        pitch: pitch_moved(s.pitch, sum_dy(es), s.sensitivity),
        ..fold(frame_start(s), es)
    }
}

/// Sum of the horizontal motion of the events of `es`.
pub open spec fn sum_dx(es: Seq<MouseEvent>) -> int
    decreases es.len(),
{
    if es.len() == 0 {
        0
    } else {
        sum_dx(es.drop_last()) + match es.last() {
            MouseEvent::Moved { dx, dy } => dx as int,
            _ => 0,
        }
    }
}

/// Sum of the vertical motion of the events of `es`.
pub open spec fn sum_dy(es: Seq<MouseEvent>) -> int
    decreases es.len(),
{
    if es.len() == 0 {
        0
    } else {
        sum_dy(es.drop_last()) + motion_dy(es.last())
    }
}

/// Motion folded in one frame: yaw moves by the summed horizontal motion times
/// the sensitivity, and pitch ends at the old pitch plus the summed vertical
/// motion times the sensitivity, clamped to the pitch limit. Neither depends on
/// the order of the events. Yaw saturates at the bounds of `i64`, so its
/// statement needs every intermediate yaw to fit there.
pub proof fn lemma_frame_motion(s: PointerState, es: Seq<MouseEvent>)
    requires
        forall|k: int|
            0 <= k <= es.len() ==> i64::MIN <= s.yaw + #[trigger] sum_dx(es.take(k)) * s.sensitivity
                <= i64::MAX,
    ensures
        after_frame(s, es).yaw == s.yaw + sum_dx(es) * s.sensitivity,
        after_frame(s, es).pitch == clamp(
            s.pitch + sum_dy(es) * s.sensitivity,
            -PITCH_LIMIT,
            PITCH_LIMIT as int,
        ),
        after_frame(s, es).sensitivity == s.sensitivity,
    decreases es.len(),
{
    assert(es.take(es.len() as int) == es);
    if es.len() > 0 {
        let p = es.drop_last();
        assert forall|k: int| 0 <= k <= p.len() implies i64::MIN <= s.yaw + #[trigger] sum_dx(
            p.take(k),
        ) * s.sensitivity <= i64::MAX by {
            assert(p.take(k) == es.take(k));
        }
        lemma_frame_motion(s, p);
        assert(p.take(p.len() as int) == p);
        assert(es.take(p.len() as int) == p);
        let m = s.sensitivity as int;
        if let MouseEvent::Moved { dx, dy } = es.last() {
            assert((sum_dx(p) + dx) * m == sum_dx(p) * m + dx * m) by (nonlinear_arith);
        }
    }
}

/// Pitch after a frame does not depend on the order of its events: two frames
/// that drained the same events, in any order, end at the same pitch.
pub proof fn lemma_pitch_order_independent(s: PointerState, a: Seq<MouseEvent>, b: Seq<MouseEvent>)
    requires
        a.to_multiset() == b.to_multiset(),
    ensures
        after_frame(s, a).pitch == after_frame(s, b).pitch,
{
    lemma_sum_dy_permutation(a, b);
}

proof fn lemma_sum_dy_remove(es: Seq<MouseEvent>, i: int)
    requires
        0 <= i < es.len(),
    ensures
        sum_dy(es) == sum_dy(es.remove(i)) + motion_dy(es[i]),
    decreases es.len(),
{
    if i == es.len() - 1 {
        assert(es.remove(i) == es.drop_last());
    } else {
        let p = es.drop_last();
        lemma_sum_dy_remove(p, i);
        assert(es.remove(i).drop_last() == p.remove(i));
        assert(es.remove(i).last() == es.last());
    }
}

proof fn lemma_sum_dy_permutation(a: Seq<MouseEvent>, b: Seq<MouseEvent>)
    requires
        a.to_multiset() == b.to_multiset(),
    ensures
        sum_dy(a) == sum_dy(b),
    decreases a.len(),
{
    broadcast use vstd::seq_lib::group_to_multiset_ensures;

    if a.len() == 0 {
        assert(b.to_multiset().len() == 0);
    } else {
        let last = a.len() - 1;
        let x = a[last];
        assert(a.contains(x));
        assert(b.to_multiset().count(x) > 0);
        assert(b.contains(x));
        let j = choose|j: int| 0 <= j < b.len() && b[j] == x;
        assert(a.remove(last) == a.drop_last());
        assert(a.remove(last).to_multiset() == a.to_multiset().remove(x));
        assert(b.remove(j).to_multiset() == b.to_multiset().remove(x));
        lemma_sum_dy_permutation(a.drop_last(), b.remove(j));
        lemma_sum_dy_remove(b, j);
    }
}

/// Button levels follow the last edge: pressing twice leaves the level set, and
/// a release clears it whatever came before.
pub proof fn lemma_button_levels(s: PointerState)
    ensures
        step(step(s, MouseEvent::LeftClick(true)), MouseEvent::LeftClick(true)).datamap.select,
        step(step(s, MouseEvent::RightClick(true)), MouseEvent::RightClick(true)).datamap.grab,
        !step(s, MouseEvent::LeftClick(false)).datamap.select,
        !step(s, MouseEvent::RightClick(false)).datamap.grab,
{
}

/// A frame without scroll events publishes a scroll of zero.
pub proof fn lemma_scroll_reset(s: PointerState, es: Seq<MouseEvent>)
    requires
        forall|i: int|
            0 <= i < es.len() ==> !((#[trigger] es[i]) is Scroll || es[i] is ScrollDiscrete),
    ensures
        after_frame(s, es).datamap.scroll_x == 0,
        after_frame(s, es).datamap.scroll_y == 0,
    decreases es.len(),
{
    if es.len() > 0 {
        let p = es.drop_last();
        assert forall|i: int| 0 <= i < p.len() implies !((#[trigger] p[i]) is Scroll
            || p[i] is ScrollDiscrete) by {
            assert(p[i] == es[i]);
        }
        lemma_scroll_reset(s, p);
        assert(es.last() == es[es.len() - 1]);
    }
}

impl PointerState {
    pub open spec fn wf(&self) -> bool {
        -PITCH_LIMIT <= self.pitch <= PITCH_LIMIT
    }

    /// Looking straight ahead, nothing pressed, default sensitivity.
    pub fn new() -> (r: PointerState)
        ensures
            r.wf(),
            r.yaw == 0,
            r.pitch == 0,
            r.sensitivity == DEFAULT_SENSITIVITY,
            r.datamap == (Datamap { select: false, grab: false, scroll_x: 0, scroll_y: 0 }),
    {
        PointerState { yaw: 0, pitch: 0, sensitivity: DEFAULT_SENSITIVITY, datamap: Datamap::new() }
    }

    pub fn with_sensitivity(sensitivity: u32) -> (r: PointerState)
        ensures
            r.wf(),
            r.yaw == 0,
            r.pitch == 0,
            r.sensitivity == sensitivity,
            r.datamap == (Datamap { select: false, grab: false, scroll_x: 0, scroll_y: 0 }),
    {
        PointerState { yaw: 0, pitch: 0, sensitivity, datamap: Datamap::new() }
    }

    /// Folds one event into yaw and the auxiliary state, leaving pitch alone.
    fn fold_event(&mut self, e: MouseEvent)
        ensures
            *final(self) == step(*old(self), e),
    {
        match e {
            MouseEvent::Moved { dx, dy } => {
                let s = self.sensitivity as i64;
                assert(-0x8000_0000 * 0xffff_ffff <= dx * s <= 0x8000_0000 * 0xffff_ffff)
                    by (nonlinear_arith)
                    requires
                        -0x8000_0000 <= dx <= 0x7fff_ffff,
                        0 <= s <= 0xffff_ffff,
                ;
                let yaw: i128 = self.yaw as i128 + (dx as i64 * s) as i128;
                self.yaw = if yaw < i64::MIN as i128 {
                    i64::MIN
                } else if yaw > i64::MAX as i128 {
                    i64::MAX
                } else {
                    yaw as i64
                };
            },
            MouseEvent::LeftClick(c) => self.datamap.select = c,
            MouseEvent::RightClick(c) => self.datamap.grab = c,
            MouseEvent::Scroll { x, y } => {
                self.datamap.scroll_x = x;
                self.datamap.scroll_y = y;
            },
            MouseEvent::ScrollDiscrete { x, y } => {
                self.datamap.scroll_x = x;
                self.datamap.scroll_y = y;
            },
        }
    }

    /// Moves pitch by `dy` counts of motion (summed over any number of events),
    /// clamped to the pitch limit.
    fn move_pitch(&mut self, dy: i128)
        requires
            -0x8000_0000_0000_0000_0000_0000 <= dy <= 0x8000_0000_0000_0000_0000_0000,
        ensures
            *final(self) == (PointerState {
                pitch: pitch_moved(old(self).pitch, dy as int, old(self).sensitivity),
                ..*old(self)
            }),
    {
        let s = self.sensitivity as i128;
        assert(-0x8000_0000_0000_0000_0000_0000 * 0xffff_ffff <= dy * s
            <= 0x8000_0000_0000_0000_0000_0000 * 0xffff_ffff) by (nonlinear_arith)
            requires
                -0x8000_0000_0000_0000_0000_0000 <= dy <= 0x8000_0000_0000_0000_0000_0000,
                0 <= s <= 0xffff_ffff,
        ;
        let pitch: i128 = self.pitch as i128 + dy * s;
        self.pitch = if pitch < -PITCH_LIMIT as i128 {
            -PITCH_LIMIT
        } else if pitch > PITCH_LIMIT as i128 {
            PITCH_LIMIT
        } else {
            pitch as i64
        };
    }

    /// Folds one event into the state: the same as a frame of that one event,
    /// except that scroll is not reset.
    pub fn apply(&mut self, e: MouseEvent)
        ensures
            *final(self) == (PointerState {
                pitch: pitch_moved(old(self).pitch, motion_dy(e), old(self).sensitivity),
                ..step(*old(self), e)
            }),
    {
        let dy: i128 = match e {
            MouseEvent::Moved { dx, dy } => dy as i128,
            _ => 0,
        };
        self.fold_event(e);
        self.move_pitch(dy);
    }

    /// One frame of input: scroll is reset, the drained events are folded into
    /// yaw and the auxiliary state in arrival order, and pitch moves by their
    /// summed vertical motion, clamped once.
    pub fn frame(&mut self, events: &Vec<MouseEvent>)
        ensures
            final(self).wf(),
            *final(self) == after_frame(*old(self), events@),
    {
        let ghost s0 = *self;
        self.datamap.scroll_x = 0;
        self.datamap.scroll_y = 0;
        let mut dy_sum: i128 = 0;
        let mut i: usize = 0;
        assert(events@.take(0) == Seq::<MouseEvent>::empty());
        while i < events.len()
            invariant
                i <= events.len(),
                *self == fold(frame_start(s0), events@.take(i as int)),
                self.pitch == s0.pitch,
                self.sensitivity == s0.sensitivity,
                dy_sum == sum_dy(events@.take(i as int)),
                -(i as int) * 0x8000_0000 <= dy_sum <= (i as int) * 0x8000_0000,
            decreases events.len() - i,
        {
            let e = events[i];
            if let MouseEvent::Moved { dx, dy } = e {
                dy_sum = dy_sum + dy as i128;
            }
            self.fold_event(e);
            assert(events@.take(i as int + 1).drop_last() == events@.take(i as int));
            assert(events@.take(i as int + 1).last() == e);
            i = i + 1;
        }
        assert(events@.take(i as int) == events@);
        assert((i as int) * 0x8000_0000 <= 0x8000_0000_0000_0000_0000_0000) by (nonlinear_arith)
            requires
                i <= 0xffff_ffff_ffff_ffff,
        ;
        self.move_pitch(dy_sum);
    }
}

} // verus!
