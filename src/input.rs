use vstd::prelude::*;

use crate::pointer::MouseEvent;

verus! {

/// Linux input event code of the left mouse button.
pub const BTN_LEFT: u32 = 0x110;

/// Linux input event code of the right mouse button.
pub const BTN_RIGHT: u32 = 0x111;

/// One decoded pointing-device report. Motion is in device counts; scroll
/// amounts are `f32` bit patterns.
#[derive(Clone, Debug)]
pub struct MouseReport {
    pub delta: Option<(i32, i32)>,
    pub buttons_down: Vec<u32>,
    pub buttons_up: Vec<u32>,
    pub scroll_distance: Option<(u32, u32)>,
    pub scroll_steps: Option<(u32, u32)>,
}

/// The edge event of one button code: left selects, right grabs, any other
/// button is ignored.
pub open spec fn button_event(code: u32, pressed: bool) -> Seq<MouseEvent> {
    if code == BTN_LEFT {
        seq![MouseEvent::LeftClick(pressed)]
    } else if code == BTN_RIGHT {
        seq![MouseEvent::RightClick(pressed)]
    } else {
        seq![]
    }
}

/// The edge events of a list of button codes, in order.
pub open spec fn button_events(codes: Seq<u32>, pressed: bool) -> Seq<MouseEvent>
    decreases codes.len(),
{
    if codes.len() == 0 {
        seq![]
    } else {
        button_events(codes.drop_last(), pressed) + button_event(codes.last(), pressed)
    }
}

pub open spec fn motion_events(delta: Option<(i32, i32)>) -> Seq<MouseEvent> {
    match delta {
        Some((dx, dy)) => seq![MouseEvent::Moved { dx, dy }],
        None => seq![],
    }
}

pub open spec fn scroll_events(d: Option<(u32, u32)>) -> Seq<MouseEvent> {
    match d {
        Some((x, y)) => seq![MouseEvent::Scroll { x, y }],
        None => seq![],
    }
}

pub open spec fn scroll_step_events(d: Option<(u32, u32)>) -> Seq<MouseEvent> {
    match d {
        Some((x, y)) => seq![MouseEvent::ScrollDiscrete { x, y }],
        None => seq![],
    }
}

impl MouseReport {
    /// The events of a report, in this order: motion, presses, releases,
    /// continuous scroll, scroll steps.
    pub open spec fn events(&self) -> Seq<MouseEvent> {
        motion_events(self.delta) + button_events(self.buttons_down@, true) + button_events(
            self.buttons_up@,
            false,
        ) + scroll_events(self.scroll_distance) + scroll_step_events(self.scroll_steps)
    }

    /// Turns a decoded report into the events that the pointer state folds.
    pub fn normalize(&self) -> (r: Vec<MouseEvent>)
        ensures
            r@ == self.events(),
    {
        let mut out: Vec<MouseEvent> = Vec::new();
        if let Some((dx, dy)) = self.delta {
            out.push(MouseEvent::Moved { dx, dy });
        }
        assert(out@ == motion_events(self.delta));
        push_button_events(&mut out, &self.buttons_down, true);
        push_button_events(&mut out, &self.buttons_up, false);
        if let Some((x, y)) = self.scroll_distance {
            out.push(MouseEvent::Scroll { x, y });
        }
        if let Some((x, y)) = self.scroll_steps {
            out.push(MouseEvent::ScrollDiscrete { x, y });
        }
        out
    }
}

fn push_button_events(out: &mut Vec<MouseEvent>, codes: &Vec<u32>, pressed: bool)
    ensures
        final(out)@ == old(out)@ + button_events(codes@, pressed),
{
    let ghost start = out@;
    let mut i: usize = 0;
    assert(codes@.take(0) == Seq::<u32>::empty());
    assert(start + button_events(codes@.take(0), pressed) == start);
    while i < codes.len()
        invariant
            i <= codes.len(),
            out@ == start + button_events(codes@.take(i as int), pressed),
        decreases codes.len() - i,
    {
        let code = codes[i];
        if code == BTN_LEFT {
            out.push(MouseEvent::LeftClick(pressed));
        } else if code == BTN_RIGHT {
            out.push(MouseEvent::RightClick(pressed));
        }
        assert(codes@.take(i as int + 1).drop_last() == codes@.take(i as int));
        assert(codes@.take(i as int + 1).last() == code);
        i = i + 1;
    }
    assert(codes@.take(i as int) == codes@);
}

} // verus!
