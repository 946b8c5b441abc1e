//! The single consumer of the event bus.
//!
//! Once per frame tick the dispatcher drains the queued input events. Window
//! events reach the UI unless the screen is locked; power events are always
//! handled: a short press of the power key toggles the lock and the backlight,
//! a level 2 battery warning sets a slow charge-indicator blink, and a level 1
//! warning powers the device off.

use vstd::prelude::*;
use crate::pmu::PmuEvent;
use crate::touch::WindowEvent;

verus! {

/// Capacity of the event bus.
pub const EVENT_BUS_CAPACITY: usize = 32;

/// Frame delay while animations run, in milliseconds.
pub const ANIMATION_FRAME_MS: u32 = 10;

/// Frame delay while idle, in milliseconds.
pub const IDLE_FRAME_MS: u32 = 50;

/// Lowest backlight voltage, in millivolts.
pub const BACKLIGHT_BASE_MV: u16 = 2600;

/// Voltage added per brightness step, in millivolts.
pub const BACKLIGHT_STEP_MV: u16 = 100;

/// Number of brightness steps.
pub const BRIGHTNESS_STEPS: u16 = 5;

/// A message on the event bus.
#[derive(Debug, Clone, Copy, PartialEq, Eq, Structural)]
pub enum InputEvent {
    WindowEvent(WindowEvent),
    Pmu(PmuEvent),
}

/// What the dispatcher asks of its surroundings for one event.
#[derive(Debug, Clone, Copy, PartialEq, Eq, Structural)]
pub enum DispatchAction {
    /// Hand the window event to the UI.
    Forward(WindowEvent),
    /// Drop the window event: the screen is locked.
    Discard,
    /// Switch the backlight on (`true`) or off (`false`).
    SetBacklight(bool),
    /// Set the charge indicator to its slow blink.
    SlowBlinkChargeLed,
    /// Power the device off.
    PowerOff,
    /// Nothing to do beyond logging the power event.
    LogOnly,
}

/// State of the dispatcher.
#[derive(Debug, Clone, Copy, PartialEq, Eq, Structural)]
pub struct Dispatcher {
    pub locked: bool,
}

/// The lock flag after `ev`, and the action it calls for, from lock flag
/// `locked`.
pub open spec fn dispatch_spec(locked: bool, ev: InputEvent) -> (bool, DispatchAction) {
    match ev {
        InputEvent::WindowEvent(w) => if locked {
            (locked, DispatchAction::Discard)
        } else {
            (locked, DispatchAction::Forward(w))
        },
        InputEvent::Pmu(PmuEvent::PowerKeyEventShort) => (
            !locked,
            DispatchAction::SetBacklight(locked),
        ),
        InputEvent::Pmu(PmuEvent::BatteryPercentWarnLevel2) => (
            locked,
            DispatchAction::SlowBlinkChargeLed,
        ),
        InputEvent::Pmu(PmuEvent::BatteryPercentWarnLevel1) => (locked, DispatchAction::PowerOff),
        InputEvent::Pmu(_) => (locked, DispatchAction::LogOnly),
    }
}

/// The actions for `evs` handled in order from lock flag `locked`, and the
/// lock flag after them.
pub open spec fn dispatch_all_spec(locked: bool, evs: Seq<InputEvent>) -> (bool, Seq<DispatchAction>)
    decreases evs.len(),
{
    if evs.len() == 0 {
        (locked, seq![])
    } else {
        let (l, acts) = dispatch_all_spec(locked, evs.drop_last());
        let (l2, a) = dispatch_spec(l, evs.last());
        (l2, acts.push(a))
    }
}

impl Dispatcher {
    /// A dispatcher with the screen unlocked.
    pub fn new() -> (r: Dispatcher)
        ensures
            !r.locked,
    {
        Dispatcher { locked: false }
    }

    /// Handles one event: window events pass only while unlocked; a short
    /// power-key press toggles the lock and turns the backlight off when
    /// locking and on when unlocking; battery warnings of level 2 and 1 ask
    /// for the slow charge blink and for power-off; other power events are
    /// only logged.
    pub fn handle(&mut self, ev: InputEvent) -> (r: DispatchAction)
        ensures
            (final(self).locked, r) == dispatch_spec(old(self).locked, ev),
    {
        match ev {
            InputEvent::WindowEvent(w) => {
                if self.locked {
                    DispatchAction::Discard
                } else {
                    DispatchAction::Forward(w)
                }
            },
            InputEvent::Pmu(PmuEvent::PowerKeyEventShort) => {
                let was_locked = self.locked;
                self.locked = !was_locked;
                DispatchAction::SetBacklight(was_locked)
            },
            InputEvent::Pmu(PmuEvent::BatteryPercentWarnLevel2) => DispatchAction::SlowBlinkChargeLed,
            InputEvent::Pmu(PmuEvent::BatteryPercentWarnLevel1) => DispatchAction::PowerOff,
            InputEvent::Pmu(_) => DispatchAction::LogOnly,
        }
    }

    /// Handles the events drained in one frame tick, in order.
    pub fn handle_all(&mut self, evs: &Vec<InputEvent>) -> (r: Vec<DispatchAction>)
        ensures
            (final(self).locked, r@) == dispatch_all_spec(old(self).locked, evs@),
    {
        let mut r: Vec<DispatchAction> = Vec::new();
        let mut k: usize = 0;
        while k < evs.len()
            invariant
                0 <= k <= evs@.len(),
                (self.locked, r@) == dispatch_all_spec(old(self).locked, evs@.subrange(0, k as int)),
            decreases evs@.len() - k,
        {
            assert(evs@.subrange(0, k + 1).drop_last() == evs@.subrange(0, k as int));
            let a = self.handle(evs[k]);
            r.push(a);
            k = k + 1;
        }
        assert(evs@.subrange(0, evs@.len() as int) == evs@);
        r
    }
}

/// The backlight voltage for a brightness setting, in millivolts: five
/// steps of 100 mV from 2600 mV, the setting taken modulo 5.
pub fn brightness_voltage(brightness: u16) -> (r: u16)
    ensures
        r as int == 2600 + (brightness as int % 5) * 100,
        2600 <= r <= 3000,
{
    BACKLIGHT_BASE_MV + (brightness % BRIGHTNESS_STEPS) * BACKLIGHT_STEP_MV
}

/// How long to sleep after a frame: 10 ms while animations run, 50 ms else.
pub fn frame_delay_ms(animating: bool) -> (r: u32)
    ensures
        r == if animating {
            10u32
        } else {
            50u32
        },
{
    if animating {
        ANIMATION_FRAME_MS
    } else {
        IDLE_FRAME_MS
    }
}

} // verus!
