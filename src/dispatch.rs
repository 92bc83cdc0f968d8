//! Classification of raw events: which discrete input a raw event stands
//! for, given the last reported position of each d-pad, stick, trigger and
//! wheel.

use crate::emit::{RawEvent, EV_ABS, EV_KEY, EV_REL};
use crate::event::{Axis, Event};
use crate::settings::{Settings, StickFunction};
use vstd::prelude::*;

verus! {

pub const BTN_TL2: u16 = 312;
pub const BTN_TR2: u16 = 313;
pub const REL_WHEEL: u16 = 8;
pub const REL_WHEEL_HI_RES: u16 = 11;
pub const ABS_X: u16 = 0;
pub const ABS_Y: u16 = 1;
pub const ABS_Z: u16 = 2;
pub const ABS_RX: u16 = 3;
pub const ABS_RY: u16 = 4;
pub const ABS_RZ: u16 = 5;
pub const ABS_WHEEL: u16 = 8;
pub const ABS_HAT0X: u16 = 16;
pub const ABS_HAT0Y: u16 = 17;
pub const ABS_MISC: u16 = 40;

/// The last discrete value reported on each axis, for edge detection.
#[derive(Debug, Clone, Copy, PartialEq, Eq, Structural)]
pub struct Tracking {
    pub dpad_x: i32,
    pub dpad_y: i32,
    pub lstick_x: i32,
    pub lstick_y: i32,
    pub rstick_x: i32,
    pub rstick_y: i32,
    pub trigger_left: i32,
    pub trigger_right: i32,
    pub abs_wheel: i32,
}

impl Tracking {
    /// Nothing reported yet.
    pub fn new() -> (r: Tracking)
        ensures
            r == Tracking::initial(),
    {
        Tracking {
            dpad_x: 0,
            dpad_y: 0,
            lstick_x: 0,
            lstick_y: 0,
            rstick_x: 0,
            rstick_y: 0,
            trigger_left: 0,
            trigger_right: 0,
            abs_wheel: 0,
        }
    }

    pub open spec fn initial() -> Tracking {
        Tracking {
            dpad_x: 0,
            dpad_y: 0,
            lstick_x: 0,
            lstick_y: 0,
            rstick_x: 0,
            rstick_y: 0,
            trigger_left: 0,
            trigger_right: 0,
            abs_wheel: 0,
        }
    }
}

/// What a raw event asks of the translator.
#[derive(Debug, Clone, Copy, PartialEq, Eq, Structural)]
pub enum Step {
    /// Nothing to do.
    Ignore,
    /// The layout switcher was pressed.
    SwitchLayout,
    /// Convert a discrete input with a value; a pulse is released at once.
    Convert(Event, i32, bool),
    /// Store a stick position: left or right stick, x or y, value.
    Position(bool, bool, i32),
    /// Pass the event on unchanged.
    Forward,
}

/// Division rounding toward zero.
pub open spec fn trunc_div(a: int, b: int) -> int {
    if a >= 0 {
        a / b
    } else {
        -((-a) / b)
    }
}

/// A stick reading after the deadzone, in output units: the distance from
/// center (`(v - 128) * 200` for 8-bit axes, `v` for 16-bit ones) is 0 within
/// `deadzone * 200`, else `(distance + 1999) / 2000` rounded toward zero.
pub open spec fn axis_value_spec(v: i32, deadzone: i32, bits16: bool) -> int {
    let d = if bits16 { v as int } else { (v as int - 128) * 200 };
    let a = if d < 0 { -d } else { d };
    if a <= deadzone as int * 200 {
        0
    } else {
        trunc_div(d + 1999, 2000)
    }
}

/// Bound of every stick position.
pub open spec fn position_bound() -> int {
    0x4000_0000
}

/// The deadzone-applied value of a stick reading.
pub fn get_axis_value(v: i32, deadzone: i32, bits16: bool) -> (r: i32)
    ensures
        r as int == axis_value_spec(v, deadzone, bits16),
        -position_bound() <= r <= position_bound(),
{
    let d: i64 = if bits16 { v as i64 } else { (v as i64 - 128) * 200 };
    let a: i64 = if d < 0 { -d } else { d };
    if a <= deadzone as i64 * 200 {
        0
    } else {
        let n: i64 = d + 1999;
        let q: i64 = if n >= 0 { n / 2000 } else { -((-n) / 2000) };
        assert(-1_000_000_000_000 <= n <= 1_000_000_000_000);
        assert(n >= 0 ==> n / 2000 <= 500_000_000) by (nonlinear_arith)
            requires n <= 1_000_000_000_000;
        assert(n < 0 ==> (-n) / 2000 <= 500_000_000) by (nonlinear_arith)
            requires -n <= 1_000_000_000_000;
        assert(n >= 0 ==> n / 2000 >= 0) by (nonlinear_arith);
        assert(n < 0 ==> (-n) / 2000 >= 0) by (nonlinear_arith);
        q as i32
    }
}

/// The sign of a value.
pub open spec fn sign(v: int) -> int {
    if v < 0 {
        -1
    } else if v > 0 {
        1
    } else {
        0
    }
}

/// A stick in bind mode: a press when the clamped direction is new, a
/// release of the old direction on return to center.
pub open spec fn bind_step(state: i32, c: int, neg: Axis, pos: Axis) -> (Step, i32) {
    if c == -1 && state != -1 {
        (Step::Convert(Event::Axis(neg), 1, false), -1i32)
    } else if c == 1 && state != 1 {
        (Step::Convert(Event::Axis(pos), 1, false), 1)
    } else if c == 0 && state != 0 {
        (
            if state == -1 {
                Step::Convert(Event::Axis(neg), 0, false)
            } else if state == 1 {
                Step::Convert(Event::Axis(pos), 0, false)
            } else {
                Step::Ignore
            },
            0,
        )
    } else {
        (Step::Ignore, state)
    }
}

/// A d-pad axis: each edge presses its direction, center releases the
/// direction held before.
pub open spec fn hat_step(state: i32, v: i32, neg: Axis, pos: Axis) -> (Step, i32) {
    if v == -1 {
        (Step::Convert(Event::Axis(neg), 1, false), -1i32)
    } else if v == 1 {
        (Step::Convert(Event::Axis(pos), 1, false), 1)
    } else if v == 0 {
        (
            if state == -1 {
                Step::Convert(Event::Axis(neg), 0, false)
            } else if state == 1 {
                Step::Convert(Event::Axis(pos), 0, false)
            } else {
                Step::Ignore
            },
            0,
        )
    } else {
        (Step::Ignore, state)
    }
}

/// A trigger: pressed on the first non-zero reading, released on zero.
pub open spec fn trigger_step(state: i32, v: i32, a: Axis) -> (Step, i32) {
    if v != 0 && state == 0 {
        (Step::Convert(Event::Axis(a), 1, false), 1)
    } else if v == 0 && state == 1 {
        (Step::Convert(Event::Axis(a), 0, false), 0)
    } else {
        (Step::Ignore, state)
    }
}

/// An absolute wheel: the direction of travel since the last reading, read
/// backwards when the jump exceeds half the range (the wheel wrapped).
pub open spec fn wheel_step(last: i32, v: i32, max: i32) -> (Step, i32) {
    let gap = v as int - last as int;
    let half = trunc_div(max as int, 2);
    let cw = Step::Convert(Event::Axis(Axis::ABS_WHEEL_CW), 1, true);
    let ccw = Step::Convert(Event::Axis(Axis::ABS_WHEEL_CCW), 1, true);
    (
        if v == 0 || last == 0 {
            Step::Ignore
        } else if gap < -half {
            cw
        } else if gap > half {
            ccw
        } else if v > last {
            cw
        } else if v < last {
            ccw
        } else {
            Step::Ignore
        },
        v,
    )
}

/// A stick reading: a position in cursor or scroll mode, a discrete input
/// in bind mode.
pub open spec fn stick_step(s: Settings, t: Tracking, ev: RawEvent, left: bool) -> (Step, Tracking) {
    let stick = if left { s.lstick } else { s.rstick };
    let y = ev.code == (if left { ABS_Y } else { ABS_RY });
    let v = axis_value_spec(ev.value, stick.deadzone, s.axis_16_bit);
    match stick.function {
        StickFunction::Cursor | StickFunction::Scroll => (Step::Position(left, y, v as i32), t),
        StickFunction::Bind => {
            let c = sign(v);
            if left && y {
                let (st, n) = bind_step(t.lstick_y, c, Axis::LSTICK_UP, Axis::LSTICK_DOWN);
                (st, Tracking { lstick_y: n, ..t })
            } else if left {
                let (st, n) = bind_step(t.lstick_x, c, Axis::LSTICK_LEFT, Axis::LSTICK_RIGHT);
                (st, Tracking { lstick_x: n, ..t })
            } else if y {
                let (st, n) = bind_step(t.rstick_y, c, Axis::RSTICK_UP, Axis::RSTICK_DOWN);
                (st, Tracking { rstick_y: n, ..t })
            } else {
                let (st, n) = bind_step(t.rstick_x, c, Axis::RSTICK_LEFT, Axis::RSTICK_RIGHT);
                (st, Tracking { rstick_x: n, ..t })
            }
        },
        StickFunction::Disabled => (Step::Ignore, t),
    }
}

/// What a raw event asks for, and the tracking after it.
pub open spec fn dispatch_spec(s: Settings, t: Tracking, max_wheel: i32, ev: RawEvent) -> (Step, Tracking) {
    if ev.kind == EV_KEY {
        if ev.code == BTN_TL2 || ev.code == BTN_TR2 {
            (Step::Ignore, t)
        } else if ev.code == s.layout_switcher && ev.value == 1 {
            (Step::SwitchLayout, t)
        } else {
            (Step::Convert(Event::Key(ev.code), ev.value, false), t)
        }
    } else if ev.kind == EV_REL && (ev.code == REL_WHEEL || ev.code == REL_WHEEL_HI_RES) {
        if ev.value == -1 {
            (Step::Convert(Event::Axis(Axis::SCROLL_WHEEL_DOWN), 1, true), t)
        } else if ev.value == 1 {
            (Step::Convert(Event::Axis(Axis::SCROLL_WHEEL_UP), 1, true), t)
        } else {
            (Step::Ignore, t)
        }
    } else if ev.code == ABS_HAT0X {
        let (st, n) = hat_step(t.dpad_x, ev.value, Axis::BTN_DPAD_LEFT, Axis::BTN_DPAD_RIGHT);
        (st, Tracking { dpad_x: n, ..t })
    } else if ev.code == ABS_HAT0Y {
        let (st, n) = hat_step(t.dpad_y, ev.value, Axis::BTN_DPAD_UP, Axis::BTN_DPAD_DOWN);
        (st, Tracking { dpad_y: n, ..t })
    } else if ev.kind == EV_ABS && (ev.code == ABS_X || ev.code == ABS_Y) {
        stick_step(s, t, ev, true)
    } else if ev.kind == EV_ABS && (ev.code == ABS_RX || ev.code == ABS_RY) {
        stick_step(s, t, ev, false)
    } else if ev.kind == EV_ABS && ev.code == ABS_Z {
        let (st, n) = trigger_step(t.trigger_left, ev.value, Axis::BTN_TL2);
        (st, Tracking { trigger_left: n, ..t })
    } else if ev.kind == EV_ABS && ev.code == ABS_RZ {
        let (st, n) = trigger_step(t.trigger_right, ev.value, Axis::BTN_TR2);
        (st, Tracking { trigger_right: n, ..t })
    } else if ev.kind == EV_ABS && ev.code == ABS_WHEEL {
        let (st, n) = wheel_step(t.abs_wheel, ev.value, max_wheel);
        (st, Tracking { abs_wheel: n, ..t })
    } else if ev.kind == EV_ABS && ev.code == ABS_MISC {
        (Step::Ignore, if ev.value == 0 { Tracking { abs_wheel: 0, ..t } } else { t })
    } else {
        (Step::Forward, t)
    }
}

fn bind(state: i32, c: i32, neg: Axis, pos: Axis) -> (r: (Step, i32))
    requires
        -1 <= c <= 1,
    ensures
        r == bind_step(state, c as int, neg, pos),
{
    if c == -1 && state != -1 {
        (Step::Convert(Event::Axis(neg), 1, false), -1)
    } else if c == 1 && state != 1 {
        (Step::Convert(Event::Axis(pos), 1, false), 1)
    } else if c == 0 && state != 0 {
        (
            if state == -1 {
                Step::Convert(Event::Axis(neg), 0, false)
            } else if state == 1 {
                Step::Convert(Event::Axis(pos), 0, false)
            } else {
                Step::Ignore
            },
            0,
        )
    } else {
        (Step::Ignore, state)
    }
}

fn hat(state: i32, v: i32, neg: Axis, pos: Axis) -> (r: (Step, i32))
    ensures
        r == hat_step(state, v, neg, pos),
{
    if v == -1 {
        (Step::Convert(Event::Axis(neg), 1, false), -1)
    } else if v == 1 {
        (Step::Convert(Event::Axis(pos), 1, false), 1)
    } else if v == 0 {
        (
            if state == -1 {
                Step::Convert(Event::Axis(neg), 0, false)
            } else if state == 1 {
                Step::Convert(Event::Axis(pos), 0, false)
            } else {
                Step::Ignore
            },
            0,
        )
    } else {
        (Step::Ignore, state)
    }
}

fn trigger(state: i32, v: i32, a: Axis) -> (r: (Step, i32))
    ensures
        r == trigger_step(state, v, a),
{
    if v != 0 && state == 0 {
        (Step::Convert(Event::Axis(a), 1, false), 1)
    } else if v == 0 && state == 1 {
        (Step::Convert(Event::Axis(a), 0, false), 0)
    } else {
        (Step::Ignore, state)
    }
}

fn wheel(last: i32, v: i32, max: i32) -> (r: (Step, i32))
    ensures
        r == wheel_step(last, v, max),
{
    let gap: i64 = v as i64 - last as i64;
    let half: i64 = max as i64 / 2;
    let cw = Step::Convert(Event::Axis(Axis::ABS_WHEEL_CW), 1, true);
    let ccw = Step::Convert(Event::Axis(Axis::ABS_WHEEL_CCW), 1, true);
    let st = if v == 0 || last == 0 {
        Step::Ignore
    } else if gap < -half {
        cw
    } else if gap > half {
        ccw
    } else if v > last {
        cw
    } else if v < last {
        ccw
    } else {
        Step::Ignore
    };
    (st, v)
}

fn stick(s: &Settings, t: Tracking, ev: RawEvent, left: bool) -> (r: (Step, Tracking))
    ensures
        r == stick_step(*s, t, ev, left),
{
    let st = if left { &s.lstick } else { &s.rstick };
    let y = ev.code == (if left { ABS_Y } else { ABS_RY });
    let v = get_axis_value(ev.value, st.deadzone, s.axis_16_bit);
    match st.function {
        StickFunction::Cursor | StickFunction::Scroll => (Step::Position(left, y, v), t),
        StickFunction::Bind => {
            let c: i32 = if v < 0 { -1 } else if v > 0 { 1 } else { 0 };
            if left && y {
                let (step, n) = bind(t.lstick_y, c, Axis::LSTICK_UP, Axis::LSTICK_DOWN);
                (step, Tracking { lstick_y: n, ..t })
            } else if left {
                let (step, n) = bind(t.lstick_x, c, Axis::LSTICK_LEFT, Axis::LSTICK_RIGHT);
                (step, Tracking { lstick_x: n, ..t })
            } else if y {
                let (step, n) = bind(t.rstick_y, c, Axis::RSTICK_UP, Axis::RSTICK_DOWN);
                (step, Tracking { rstick_y: n, ..t })
            } else {
                let (step, n) = bind(t.rstick_x, c, Axis::RSTICK_LEFT, Axis::RSTICK_RIGHT);
                (step, Tracking { rstick_x: n, ..t })
            }
        },
        StickFunction::Disabled => (Step::Ignore, t),
    }
}

/// Classifies a raw event (see `dispatch_spec`).
pub fn dispatch(s: &Settings, t: Tracking, max_wheel: i32, ev: RawEvent) -> (r: (Step, Tracking))
    ensures
        r == dispatch_spec(*s, t, max_wheel, ev),
{
    if ev.kind == EV_KEY {
        if ev.code == BTN_TL2 || ev.code == BTN_TR2 {
            (Step::Ignore, t)
        } else if ev.code == s.layout_switcher && ev.value == 1 {
            (Step::SwitchLayout, t)
        } else {
            (Step::Convert(Event::Key(ev.code), ev.value, false), t)
        }
    } else if ev.kind == EV_REL && (ev.code == REL_WHEEL || ev.code == REL_WHEEL_HI_RES) {
        if ev.value == -1 {
            (Step::Convert(Event::Axis(Axis::SCROLL_WHEEL_DOWN), 1, true), t)
        } else if ev.value == 1 {
            (Step::Convert(Event::Axis(Axis::SCROLL_WHEEL_UP), 1, true), t)
        } else {
            (Step::Ignore, t)
        }
    } else if ev.code == ABS_HAT0X {
        let (st, n) = hat(t.dpad_x, ev.value, Axis::BTN_DPAD_LEFT, Axis::BTN_DPAD_RIGHT);
        (st, Tracking { dpad_x: n, ..t })
    } else if ev.code == ABS_HAT0Y {
        let (st, n) = hat(t.dpad_y, ev.value, Axis::BTN_DPAD_UP, Axis::BTN_DPAD_DOWN);
        (st, Tracking { dpad_y: n, ..t })
    } else if ev.kind == EV_ABS && (ev.code == ABS_X || ev.code == ABS_Y) {
        stick(s, t, ev, true)
    } else if ev.kind == EV_ABS && (ev.code == ABS_RX || ev.code == ABS_RY) {
        stick(s, t, ev, false)
    } else if ev.kind == EV_ABS && ev.code == ABS_Z {
        let (st, n) = trigger(t.trigger_left, ev.value, Axis::BTN_TL2);
        (st, Tracking { trigger_left: n, ..t })
    } else if ev.kind == EV_ABS && ev.code == ABS_RZ {
        let (st, n) = trigger(t.trigger_right, ev.value, Axis::BTN_TR2);
        (st, Tracking { trigger_right: n, ..t })
    } else if ev.kind == EV_ABS && ev.code == ABS_WHEEL {
        let (st, n) = wheel(t.abs_wheel, ev.value, max_wheel);
        (st, Tracking { abs_wheel: n, ..t })
    } else if ev.kind == EV_ABS && ev.code == ABS_MISC {
        (Step::Ignore, if ev.value == 0 { Tracking { abs_wheel: 0, ..t } } else { t })
    } else {
        (Step::Forward, t)
    }
}

pub proof fn lemma_position_bounded(s: Settings, t: Tracking, max_wheel: i32, ev: RawEvent)
    ensures
        dispatch_spec(s, t, max_wheel, ev).0 matches Step::Position(_, _, v) ==> -position_bound() <= v <= position_bound(),
{
    let st = if ev.kind == EV_ABS && (ev.code == ABS_X || ev.code == ABS_Y) { s.lstick } else { s.rstick };
    lemma_axis_value_bounded(ev.value, st.deadzone, s.axis_16_bit);
}

pub proof fn lemma_axis_value_bounded(v: i32, deadzone: i32, bits16: bool)
    ensures
        -position_bound() <= axis_value_spec(v, deadzone, bits16) <= position_bound(),
{
    let d = if bits16 { v as int } else { (v as int - 128) * 200 };
    let n = d + 1999;
    assert(-1_000_000_000_000 <= n <= 1_000_000_000_000);
    assert(n >= 0 ==> n / 2000 <= 500_000_000) by (nonlinear_arith)
        requires n <= 1_000_000_000_000;
    assert(n < 0 ==> (-n) / 2000 <= 500_000_000) by (nonlinear_arith)
        requires -n <= 1_000_000_000_000;
    assert(n >= 0 ==> n / 2000 >= 0) by (nonlinear_arith);
    assert(n < 0 ==> (-n) / 2000 >= 0) by (nonlinear_arith);
}

} // verus!
